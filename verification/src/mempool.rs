//! The simple mempool: buffers client payload digests, hands batches to the
//! consensus core, answers availability queries, and garbage-collects
//! committed payloads.

use vstd::prelude::*;
use crate::committee::{Committee, Parameters};
use crate::errors::{MempoolError, MempoolResult};
use crate::types::{Digest, PublicKey};

verus! {

/// What the mempool says about a payload digest referenced by a block.
#[derive(Clone, PartialEq, Eq, Structural, Debug)]
pub enum PayloadStatus {
    /// The payload is locally available; the block may be voted on.
    Accept,
    /// The payload is plausible but not yet fetched; retry after a pull.
    Wait(Digest),
    /// The payload is rejected; the block is invalid for good.
    Reject,
}

/// A request the consensus core sends to the mempool.
#[derive(Clone, PartialEq, Eq, Structural, Debug)]
pub enum ConsensusMessage {
    /// Ask for a batch of payload digests to embed in the next proposal.
    Get,
    /// Ask whether a payload digest is locally available.
    Verify(Digest),
}

/// The transaction-batching mempool of one replica.
pub struct SimpleMempool {
    /// Digests queued for inclusion in future proposals, oldest first.
    queued: Vec<Digest>,
    /// Digests whose payloads are locally available.
    available: Vec<Digest>,
    /// Digests rejected by policy.
    rejected: Vec<Digest>,
    /// Maximum number of queued digests.
    queue_capacity: usize,
    /// Maximum number of digests per proposal batch.
    batch_size: usize,
}

impl SimpleMempool {
    pub closed spec fn spec_queued(&self) -> Seq<Digest> {
        self.queued@
    }

    pub closed spec fn spec_available(&self) -> Seq<Digest> {
        self.available@
    }

    pub closed spec fn spec_rejected(&self) -> Seq<Digest> {
        self.rejected@
    }

    pub closed spec fn spec_capacity(&self) -> int {
        self.queue_capacity as int
    }

    pub closed spec fn spec_batch_size(&self) -> int {
        self.batch_size as int
    }

    /// Builds the mempool for a committee member; a key outside the committee
    /// is refused with `NotInCommittee`. One proposal batch holds at most one
    /// digest per 32 bytes of the payload budget, and at least one.
    pub fn new(name: PublicKey, committee: &Committee, parameters: &Parameters) -> (r:
        MempoolResult<SimpleMempool>)
        requires
            committee.wf(),
        ensures
            r is Ok <==> committee.spec_exists(name),
            r is Err ==> r->Err_0 == MempoolError::NotInCommittee(name),
            r is Ok ==> r->Ok_0.spec_queued().len() == 0 && r->Ok_0.spec_available().len() == 0
                && r->Ok_0.spec_rejected().len() == 0 && r->Ok_0.spec_capacity()
                == parameters.queue_capacity,
            r is Ok ==> r->Ok_0.spec_batch_size() == (
            if parameters.max_payload_size / 32 == 0 {
                1int
            } else {
                parameters.max_payload_size as int / 32
            }),
            r is Ok ==> r->Ok_0.spec_batch_size() >= 1,
    {
        let front = committee.front_address(&name);
        if let Err(e) = front {
            return Err(e);
        }
        let batch_size = if parameters.max_payload_size / 32 == 0 {
            1
        } else {
            parameters.max_payload_size / 32
        };
        Ok(SimpleMempool {
            queued: Vec::new(),
            available: Vec::new(),
            rejected: Vec::new(),
            queue_capacity: parameters.queue_capacity,
            batch_size,
        })
    }

    /// Accepts a client payload digest; returns false (dropping it) when the
    /// queue is full.
    pub fn submit(&mut self, d: Digest) -> (r: bool)
        ensures
            r <==> old(self).spec_queued().len() < old(self).spec_capacity(),
            r ==> final(self).spec_queued() == old(self).spec_queued().push(d)
                && final(self).spec_available() == old(self).spec_available().push(d),
            !r ==> final(self).spec_queued() == old(self).spec_queued()
                && final(self).spec_available() == old(self).spec_available(),
            final(self).spec_rejected() == old(self).spec_rejected(),
            final(self).spec_capacity() == old(self).spec_capacity(),
            final(self).spec_batch_size() == old(self).spec_batch_size(),
    {
        if self.queued.len() < self.queue_capacity {
            self.queued.push(d);
            self.available.push(d);
            true
        } else {
            false
        }
    }

    /// Hands out the next proposal batch: up to the batch budget of queued
    /// digests, oldest first; empty on exhaustion. Never blocks.
    pub fn get(&mut self) -> (r: Vec<Digest>)
        ensures
            r@.len() <= old(self).spec_batch_size(),
            r@.len() == vstd::math::min(
                old(self).spec_queued().len() as int,
                old(self).spec_batch_size(),
            ),
            r@ == old(self).spec_queued().take(r@.len() as int),
            final(self).spec_queued() == old(self).spec_queued().skip(r@.len() as int),
            final(self).spec_available() == old(self).spec_available(),
            final(self).spec_rejected() == old(self).spec_rejected(),
            final(self).spec_capacity() == old(self).spec_capacity(),
            final(self).spec_batch_size() == old(self).spec_batch_size(),
    {
        let n = if self.queued.len() < self.batch_size {
            self.queued.len()
        } else {
            self.batch_size
        };
        let mut out: Vec<Digest> = Vec::new();
        let mut rest: Vec<Digest> = Vec::new();
        let mut i: usize = 0;
        while i < self.queued.len()
            invariant
                i <= self.queued@.len(),
                n <= self.queued@.len(),
                self == old(self),
                out@ == self.queued@.take(vstd::math::min(i as int, n as int)),
                rest@ == self.queued@.subrange(vstd::math::min(i as int, n as int), i as int),
            decreases self.queued@.len() - i,
        {
            if i < n {
                out.push(self.queued[i]);
                proof {
                    assert(out@ =~= self.queued@.take(vstd::math::min(i + 1int, n as int)));
                    assert(rest@ =~= self.queued@.subrange(
                        vstd::math::min(i + 1int, n as int),
                        i + 1int,
                    ));
                }
            } else {
                rest.push(self.queued[i]);
                proof {
                    assert(out@ =~= self.queued@.take(vstd::math::min(i + 1int, n as int)));
                    assert(rest@ =~= self.queued@.subrange(
                        vstd::math::min(i + 1int, n as int),
                        i + 1int,
                    ));
                }
            }
            i = i + 1;
        }
        self.queued = rest;
        proof {
            assert(out@ =~= old(self).spec_queued().take(out@.len() as int));
            assert(self.queued@ =~= old(self).spec_queued().skip(out@.len() as int));
        }
        out
    }

    /// Availability of one payload digest: `Reject` for rejected digests,
    /// `Accept` for available ones, `Wait` otherwise.
    pub fn verify(&self, d: &Digest) -> (r: PayloadStatus)
        ensures
            self.spec_rejected().contains(*d) ==> r == PayloadStatus::Reject,
            !self.spec_rejected().contains(*d) && self.spec_available().contains(*d) ==> r
                == PayloadStatus::Accept,
            !self.spec_rejected().contains(*d) && !self.spec_available().contains(*d) ==> r
                == PayloadStatus::Wait(*d),
    {
        if contains_digest_vec(&self.rejected, d) {
            PayloadStatus::Reject
        } else if contains_digest_vec(&self.available, d) {
            PayloadStatus::Accept
        } else {
            PayloadStatus::Wait(*d)
        }
    }

    /// Notifies the mempool that a payload was committed: it leaves the
    /// availability set and the queue.
    pub fn garbage_collect(&mut self, d: &Digest)
        ensures
            final(self).spec_available() == old(self).spec_available().filter(
                |x: Digest| x != *d,
            ),
            final(self).spec_queued() == old(self).spec_queued().filter(|x: Digest| x != *d),
            final(self).spec_rejected() == old(self).spec_rejected(),
            final(self).spec_capacity() == old(self).spec_capacity(),
            final(self).spec_batch_size() == old(self).spec_batch_size(),
    {
        self.available = filter_out(&self.available, d);
        self.queued = filter_out(&self.queued, d);
    }

    /// Answers one consensus request: a batch for `Get` (with `get`'s exact
    /// behaviour), availability for `Verify` (with `verify`'s).
    pub fn handle_consensus_message(&mut self, m: &ConsensusMessage) -> (r: (
        Vec<Digest>,
        PayloadStatus,
    ))
        ensures
            m is Verify ==> final(self).spec_queued() == old(self).spec_queued()
                && final(self).spec_available() == old(self).spec_available()
                && final(self).spec_rejected() == old(self).spec_rejected(),
            m matches ConsensusMessage::Verify(d) ==> {
                &&& (old(self).spec_rejected().contains(*d) ==> r.1 == PayloadStatus::Reject)
                &&& (!old(self).spec_rejected().contains(*d) && old(self).spec_available().contains(
                    *d,
                ) ==> r.1 == PayloadStatus::Accept)
                &&& (!old(self).spec_rejected().contains(*d) && !old(
                    self,
                ).spec_available().contains(*d) ==> r.1 == PayloadStatus::Wait(*d))
                &&& r.0@.len() == 0
            },
            m is Get ==> {
                &&& r.0@.len() == vstd::math::min(
                    old(self).spec_queued().len() as int,
                    old(self).spec_batch_size(),
                )
                &&& r.0@ == old(self).spec_queued().take(r.0@.len() as int)
                &&& final(self).spec_queued() == old(self).spec_queued().skip(r.0@.len() as int)
                &&& final(self).spec_available() == old(self).spec_available()
                &&& final(self).spec_rejected() == old(self).spec_rejected()
            },
    {
        match m {
            ConsensusMessage::Get => {
                let batch = self.get();
                (batch, PayloadStatus::Accept)
            },
            ConsensusMessage::Verify(d) => {
                let st = self.verify(d);
                (Vec::new(), st)
            },
        }
    }
}

/// Whether a digest vector holds `d`.
pub fn contains_digest_vec(v: &Vec<Digest>, d: &Digest) -> (r: bool)
    ensures
        r == v@.contains(*d),
{
    let mut i: usize = 0;
    while i < v.len()
        invariant
            i <= v@.len(),
            forall|j: int| 0 <= j < i ==> v@[j] != *d,
        decreases v@.len() - i,
    {
        if v[i].w0 == d.w0 && v[i].w1 == d.w1 && v[i].w2 == d.w2 && v[i].w3 == d.w3 {
            return true;
        }
        i = i + 1;
    }
    false
}

/// All elements of `v` except `d`, in order.
fn filter_out(v: &Vec<Digest>, d: &Digest) -> (r: Vec<Digest>)
    ensures
        r@ == v@.filter(|x: Digest| x != *d),
{
    let dd = *d;
    let mut out: Vec<Digest> = Vec::new();
    let mut i: usize = 0;
    proof {
        reveal(Seq::filter);
        assert(v@.take(0int) =~= Seq::<Digest>::empty());
        assert(v@.take(0int).filter(|x: Digest| x != dd) =~= Seq::<Digest>::empty());
    }
    while i < v.len()
        invariant
            i <= v@.len(),
            dd == *d,
            out@ == v@.take(i as int).filter(|x: Digest| x != dd),
        decreases v@.len() - i,
    {
        let x = v[i];
        proof {
            assert(v@.take(i + 1int).drop_last() =~= v@.take(i as int));
            assert(v@.take(i + 1int).last() == v@[i as int]);
            reveal(Seq::filter);
        }
        if !(x.w0 == d.w0 && x.w1 == d.w1 && x.w2 == d.w2 && x.w3 == d.w3) {
            out.push(x);
        }
        proof {
            assert(v@.take(i + 1int).filter(|x: Digest| x != dd) =~= out@);
        }
        i = i + 1;
    }
    proof {
        assert(v@.take(v@.len() as int) =~= v@);
    }
    out
}

} // verus!
