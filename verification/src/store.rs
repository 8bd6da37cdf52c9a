//! A content-addressed block store: blocks are kept under their digests,
//! writes are idempotent, and every stored block's parent link is grounded in
//! the store itself.

use vstd::prelude::*;
use crate::errors::{DiemError, DiemResult};
use crate::messages::{block_eq, Block};
use crate::types::Digest;

verus! {

/// Whether some stored block carries the digest `d`.
pub open spec fn contains_digest(s: Seq<Block>, d: Digest) -> bool {
    exists|i: int| 0 <= i < s.len() && s[i].spec_digest() == d
}

/// The stored block carrying digest `d`, if any.
pub open spec fn lookup(s: Seq<Block>, d: Digest) -> Option<Block> {
    if contains_digest(s, d) {
        Some(s[choose|i: int| 0 <= i < s.len() && s[i].spec_digest() == d])
    } else {
        None
    }
}

/// A certificate is grounded in `s` when it is the round-zero sentinel or the
/// block it certifies is stored under its hash at its round.
pub open spec fn grounded(s: Seq<Block>, qc: crate::messages::QC) -> bool {
    qc.round == 0 || (contains_digest(s, qc.hash) && lookup(s, qc.hash)->0.round == qc.round)
}

/// Store invariant: digests are unique; every non-genesis block sits strictly
/// above its parent certificate's round; every stored certificate is grounded.
pub open spec fn store_wf(s: Seq<Block>) -> bool {
    &&& forall|i: int, j: int|
        0 <= i < j < s.len() ==> (#[trigger] s[i]).spec_digest() != (#[trigger] s[j]).spec_digest()
    &&& forall|i: int|
        0 <= i < s.len() ==> ((#[trigger] s[i]).round == 0 || s[i].qc.round < s[i].round)
    &&& forall|i: int| 0 <= i < s.len() ==> ((#[trigger] s[i]).round != 0 || s[i].qc.round == 0)
    &&& forall|i: int| 0 <= i < s.len() ==> grounded(s, (#[trigger] s[i]).qc)
}

/// The persisted block store of one replica.
pub struct BlockStore {
    blocks: Vec<Block>,
}

impl BlockStore {
    /// The stored blocks, in insertion order.
    pub closed spec fn view(&self) -> Seq<Block> {
        self.blocks@
    }

    /// The store invariant.
    pub open spec fn wf(&self) -> bool {
        store_wf(self@)
    }

    /// An empty store.
    pub fn new() -> (r: BlockStore)
        ensures
            r@.len() == 0,
            r.wf(),
    {
        BlockStore { blocks: Vec::new() }
    }

    /// Reads the block stored under `d`, if any.
    pub fn read(&self, d: &Digest) -> (r: Option<Block>)
        requires
            self.wf(),
        ensures
            r is Some <==> contains_digest(self@, *d),
            r is Some ==> block_eq(r->0, lookup(self@, *d)->0),
    {
        let mut i: usize = 0;
        while i < self.blocks.len()
            invariant
                i <= self@.len(),
                self.wf(),
                forall|j: int| 0 <= j < i ==> (#[trigger] self@[j]).spec_digest() != *d,
            decreases self@.len() - i,
        {
            let di = self.blocks[i].digest();
            if di.w0 == d.w0 && di.w1 == d.w1 && di.w2 == d.w2 && di.w3 == d.w3 {
                proof {
                    assert(*d == self@[i as int].spec_digest());
                    let w = choose|k: int|
                        0 <= k < self@.len() && self@[k].spec_digest() == *d;
                    assert(self@[w].spec_digest() == *d);
                }
                return Some(self.blocks[i].duplicate());
            }
            i = i + 1;
        }
        None
    }

    /// Whether a block may be added: it is a round-zero block, or it sits
    /// strictly above a parent certificate that is grounded in the store.
    pub open spec fn spec_can_insert(s: Seq<Block>, b: Block) -> bool {
        (b.round == 0 && b.qc.round == 0) || (b.qc.round < b.round && grounded(s, b.qc))
    }

    /// Persists a block under its digest. Idempotent: a block whose digest is
    /// already present leaves the store unchanged. A block that would break
    /// the store invariant is refused: a malformed round ordering with
    /// `MalformedBlock`, an ungrounded parent with `StoreError` (the caller
    /// escalates to the synchronizer).
    #[verifier::rlimit(60)]
    pub fn write(&mut self, b: &Block) -> (r: DiemResult<()>)
        requires
            old(self).wf(),
        ensures
            final(self).wf(),
            contains_digest(old(self)@, b.spec_digest()) ==> r is Ok && final(self)@ == old(
                self,
            )@,
            !contains_digest(old(self)@, b.spec_digest()) && BlockStore::spec_can_insert(
                old(self)@,
                *b,
            ) ==> r is Ok && final(self)@.len() == old(self)@.len() + 1
                && final(self)@.drop_last() == old(self)@
                && block_eq(final(self)@.last(), *b),
            !contains_digest(old(self)@, b.spec_digest()) && !BlockStore::spec_can_insert(
                old(self)@,
                *b,
            ) ==> r is Err && final(self)@ == old(self)@,
            r is Ok <==> (contains_digest(old(self)@, b.spec_digest())
                || BlockStore::spec_can_insert(old(self)@, *b)),
            contains_digest(final(self)@, b.spec_digest()) <==> r is Ok,
    {
        let d = b.digest();
        let mut i: usize = 0;
        while i < self.blocks.len()
            invariant
                i <= self@.len(),
                self.wf(),
                self@ == old(self)@,
                d == b.spec_digest(),
                forall|j: int| 0 <= j < i ==> (#[trigger] self@[j]).spec_digest() != d,
            decreases self@.len() - i,
        {
            let di = self.blocks[i].digest();
            if di.w0 == d.w0 && di.w1 == d.w1 && di.w2 == d.w2 && di.w3 == d.w3 {
                proof {
                    assert(self@[i as int].spec_digest() == b.spec_digest());
                }
                return Ok(());
            }
            i = i + 1;
        }
        if b.round == 0 && b.qc.round != 0 {
            return Err(DiemError::MalformedBlock);
        }
        if b.round != 0 && b.qc.round >= b.round {
            return Err(DiemError::MalformedBlock);
        }
        if b.round != 0 && b.qc.round > 0 {
            match self.read(&b.qc.hash) {
                Some(parent) => {
                    if parent.round != b.qc.round {
                        return Err(DiemError::StoreError);
                    }
                },
                None => {
                    return Err(DiemError::StoreError);
                },
            }
        }
        let ghost olds = self@;
        self.blocks.push(b.duplicate());
        proof {
            let news = self@;
            assert(news.drop_last() =~= olds);
            assert(block_eq(news.last(), *b));
            assert(news.last().spec_digest() == b.spec_digest());
            assert forall|k: int| 0 <= k < news.len() implies grounded(
                news,
                (#[trigger] news[k]).qc,
            ) by {
                let qck = news[k].qc;
                if k < olds.len() {
                    assert(grounded(olds, qck));
                    if qck.round != 0 {
                        let w = choose|m: int|
                            0 <= m < olds.len() && olds[m].spec_digest() == qck.hash;
                        assert(news[w].spec_digest() == qck.hash);
                        lemma_lookup_stable(olds, news, qck.hash, w);
                    }
                } else {
                    assert(block_eq(news[k], *b));
                    if qck.round != 0 {
                        let w = choose|m: int|
                            0 <= m < olds.len() && olds[m].spec_digest() == qck.hash;
                        assert(news[w].spec_digest() == qck.hash);
                        lemma_lookup_stable(olds, news, qck.hash, w);
                    }
                }
            }
            assert(contains_digest(news, b.spec_digest()));
        }
        Ok(())
    }
}

/// Appending a fresh block does not change what earlier digests resolve to.
proof fn lemma_lookup_stable(olds: Seq<Block>, news: Seq<Block>, d: Digest, w: int)
    requires
        store_wf(olds) || store_wf(news),
        news.drop_last() == olds,
        news.len() == olds.len() + 1,
        forall|i: int, j: int|
            0 <= i < j < news.len() ==> (#[trigger] news[i]).spec_digest()
                != (#[trigger] news[j]).spec_digest(),
        0 <= w < olds.len(),
        olds[w].spec_digest() == d,
    ensures
        lookup(news, d) == lookup(olds, d),
        contains_digest(news, d),
        contains_digest(olds, d),
{
    assert(news[w] == olds[w]);
    assert(contains_digest(olds, d));
    assert(contains_digest(news, d));
    let a = choose|i: int| 0 <= i < olds.len() && olds[i].spec_digest() == d;
    let bch = choose|i: int| 0 <= i < news.len() && news[i].spec_digest() == d;
    assert(news[a] == olds[a]);
    if a != bch {
        assert(news[a].spec_digest() == news[bch].spec_digest());
    }
}

} // verus!
