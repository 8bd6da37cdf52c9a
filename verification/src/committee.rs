//! The committee: an immutable, ordered set of validators with their network
//! addresses, and the thresholds derived from its size.

use vstd::prelude::*;
use crate::errors::{MempoolError, MempoolResult};
use crate::types::{Address, PublicKey};

verus! {

/// Protocol parameters recognized by the core and the mempool.
pub struct Parameters {
    /// Per-round timer duration in milliseconds before the fallback path.
    pub timeout_delay: u64,
    /// Synchronizer retry interval in milliseconds.
    pub sync_retry_delay: u64,
    /// Maximum number of buffered transactions in the mempool.
    pub queue_capacity: usize,
    /// Maximum bytes per proposal batch.
    pub max_payload_size: usize,
}

impl Default for Parameters {
    /// The default parameter set.
    fn default() -> (r: Self)
        ensures
            r.timeout_delay == 100,
            r.sync_retry_delay == 1000,
            r.queue_capacity == 10000,
            r.max_payload_size == 100000,
    {
        Parameters {
            timeout_delay: 100,
            sync_retry_delay: 1000,
            queue_capacity: 10000,
            max_payload_size: 100000,
        }
    }
}

pub type EpochNumber = u128;

/// One committee member: its key and its two listening addresses.
#[derive(Clone, Copy, PartialEq, Eq, Structural, Debug)]
pub struct Authority {
    pub name: PublicKey,
    /// Address on which the member's mempool receives client transactions.
    pub front_address: Address,
    /// Address on which the member receives protocol messages.
    pub mempool_address: Address,
}

/// Whether the authorities are strictly sorted by name (hence unique).
pub open spec fn sorted_by_name(s: Seq<Authority>) -> bool {
    forall|i: int, j: int| 0 <= i < j < s.len() ==> s[i].name < s[j].name
}

/// The set of member names of an authority sequence.
pub open spec fn names_of(s: Seq<Authority>) -> Set<PublicKey> {
    s.map(|i: int, a: Authority| a.name).to_set()
}

/// The committee of one epoch: immutable for the epoch's lifetime.
#[derive(Clone)]
pub struct Committee {
    authorities: Vec<Authority>,
    epoch: EpochNumber,
}

impl Committee {
    /// The members, in their canonical (sorted) order.
    pub closed spec fn view(&self) -> Seq<Authority> {
        self.authorities@
    }

    /// A committee is well formed when it is non-empty and strictly sorted by
    /// member name.
    pub open spec fn wf(&self) -> bool {
        sorted_by_name(self@) && self@.len() >= 1
    }

    /// Builds a committee. Returns `None` unless the members are non-empty and
    /// strictly sorted by name.
    pub fn new(authorities: Vec<Authority>, epoch: EpochNumber) -> (r: Option<Committee>)
        ensures
            r is Some <==> (sorted_by_name(authorities@) && authorities@.len() >= 1),
            r is Some ==> r->0@ == authorities@ && r->0.wf() && r->0.spec_epoch() == epoch,
    {
        if authorities.len() == 0 {
            return None;
        }
        let mut i: usize = 0;
        while i < authorities.len() - 1
            invariant
                authorities@.len() >= 1,
                i < authorities@.len(),
                forall|a: int, b: int| 0 <= a < b < i + 1 ==> authorities@[a].name < authorities@[b].name,
            decreases authorities@.len() - i,
        {
            if authorities[i].name >= authorities[i + 1].name {
                return None;
            }
            i = i + 1;
        }
        Some(Committee { authorities, epoch })
    }

    pub closed spec fn spec_epoch(&self) -> EpochNumber {
        self.epoch
    }

    /// The epoch this committee serves.
    pub fn epoch(&self) -> (r: EpochNumber)
        ensures
            r == self.spec_epoch(),
    {
        self.epoch
    }

    /// Number of members.
    pub fn size(&self) -> (r: usize)
        ensures
            r == self@.len(),
    {
        self.authorities.len()
    }

    /// The member at a position of the canonical order.
    pub fn authority_at(&self, i: usize) -> (r: Authority)
        requires
            i < self@.len(),
        ensures
            r == self@[i as int],
    {
        self.authorities[i]
    }

    /// Maximum number of tolerated faulty members: `f = (n - 1) / 3`.
    pub open spec fn spec_faults(&self) -> int {
        (self@.len() - 1) / 3
    }

    /// Quorum threshold `2f + 1`.
    pub open spec fn spec_quorum_threshold(&self) -> int {
        2 * self.spec_faults() + 1
    }

    /// Validity threshold `f + 1`.
    pub open spec fn spec_validity_threshold(&self) -> int {
        self.spec_faults() + 1
    }

    /// The number of signatures a certificate needs: `2f + 1`.
    pub fn quorum_threshold(&self) -> (r: usize)
        requires
            self.wf(),
        ensures
            r == self.spec_quorum_threshold(),
            r <= self@.len(),
    {
        let n: usize = self.authorities.len();
        let f: usize = (n - 1) / 3;
        proof {
            assert(2 * ((n - 1) as int / 3) + 1 <= n as int) by (nonlinear_arith)
                requires n >= 1;
        }
        2 * f + 1
    }

    /// The number of members that surely contains one honest member: `f + 1`.
    pub fn validity_threshold(&self) -> (r: usize)
        requires
            self.wf(),
        ensures
            r == self.spec_validity_threshold(),
            r <= self@.len(),
    {
        let n: usize = self.authorities.len();
        let f: usize = (n - 1) / 3;
        proof {
            assert((n - 1) as int / 3 + 1 <= n as int) by (nonlinear_arith)
                requires n >= 1;
        }
        f + 1
    }

    /// Whether `name` is a member.
    pub open spec fn spec_exists(&self, name: PublicKey) -> bool {
        exists|i: int| 0 <= i < self@.len() && self@[i].name == name
    }

    /// The member record for `name`, if any.
    pub closed spec fn spec_authority(&self, name: PublicKey) -> Option<Authority> {
        if self.spec_exists(name) {
            Some(self@[choose|i: int| 0 <= i < self@.len() && self@[i].name == name])
        } else {
            None
        }
    }

    fn find(&self, name: PublicKey) -> (r: Option<Authority>)
        requires
            self.wf(),
        ensures
            r is Some <==> self.spec_exists(name),
            r is Some ==> r->0 == self.spec_authority(name)->0 && r->0.name == name,
    {
        let mut i: usize = 0;
        while i < self.authorities.len()
            invariant
                i <= self@.len(),
                self.wf(),
                forall|j: int| 0 <= j < i ==> self@[j].name != name,
            decreases self@.len() - i,
        {
            if self.authorities[i].name == name {
                proof {
                    let w = choose|k: int| 0 <= k < self@.len() && self@[k].name == name;
                    assert(self@[w].name == name);
                    if w != i {
                        assert(self@[w].name < self@[i as int].name || self@[i as int].name < self@[w].name);
                    }
                }
                return Some(self.authorities[i]);
            }
            i = i + 1;
        }
        None
    }

    /// Whether `name` is a member.
    pub fn is_member(&self, name: &PublicKey) -> (r: bool)
        requires
            self.wf(),
        ensures
            r == self.spec_exists(*name),
    {
        self.find(*name).is_some()
    }

    /// Voting stake of a member; every member holds equal weight 1.
    pub fn stake(&self, name: &PublicKey) -> (r: usize)
        requires
            self.wf(),
        ensures
            r == if self.spec_exists(*name) { 1int } else { 0int },
    {
        if self.is_member(name) { 1 } else { 0 }
    }

    /// The address on which `name` receives client transactions; an error if
    /// `name` is not a member.
    pub fn front_address(&self, name: &PublicKey) -> (r: MempoolResult<Address>)
        requires
            self.wf(),
        ensures
            r is Ok <==> self.spec_exists(*name),
            r is Ok ==> r->Ok_0 == self.spec_authority(*name)->0.front_address,
            r is Err ==> r->Err_0 == MempoolError::NotInCommittee(*name),
    {
        match self.find(*name) {
            Some(a) => Ok(a.front_address),
            None => Err(MempoolError::NotInCommittee(*name)),
        }
    }

    /// The address on which `name` receives protocol messages; an error if
    /// `name` is not a member.
    pub fn mempool_address(&self, name: &PublicKey) -> (r: MempoolResult<Address>)
        requires
            self.wf(),
        ensures
            r is Ok <==> self.spec_exists(*name),
            r is Ok ==> r->Ok_0 == self.spec_authority(*name)->0.mempool_address,
            r is Err ==> r->Err_0 == MempoolError::NotInCommittee(*name),
    {
        match self.find(*name) {
            Some(a) => Ok(a.mempool_address),
            None => Err(MempoolError::NotInCommittee(*name)),
        }
    }

    /// The protocol addresses of every member but `myself`, in canonical order.
    pub fn broadcast_addresses(&self, myself: &PublicKey) -> (r: Vec<Address>)
        requires
            self.wf(),
        ensures
            r@ == self@.filter(|a: Authority| a.name != *myself).map(
                |i: int, a: Authority| a.mempool_address,
            ),
    {
        let me: PublicKey = *myself;
        let mut out: Vec<Address> = Vec::new();
        let mut i: usize = 0;
        proof {
            assert(self@.take(0int) =~= Seq::<Authority>::empty());
            assert(self@.take(0int).filter(|a: Authority| a.name != me) =~= Seq::<Authority>::empty());
        }
        while i < self.authorities.len()
            invariant
                i <= self@.len(),
                out@ == self@.take(i as int).filter(|a: Authority| a.name != me).map(
                    |k: int, a: Authority| a.mempool_address,
                ),
            decreases self@.len() - i,
        {
            let a = self.authorities[i];
            proof {
                assert(self@.take(i + 1int).drop_last() =~= self@.take(i as int));
                assert(self@.take(i + 1int).last() == self@[i as int]);
                reveal(Seq::filter);
            }
            if a.name != me {
                out.push(a.mempool_address);
            }
            proof {
                assert(self@.take(i + 1int).filter(|a: Authority| a.name != me).map(
                    |k: int, a: Authority| a.mempool_address,
                ) =~= out@);
            }
            i = i + 1;
        }
        proof {
            assert(self@.take(self@.len() as int) =~= self@);
        }
        out
    }
}

/// Full configuration of one replica.
pub struct Config {
    pub name: PublicKey,
    pub committee: Committee,
    pub parameters: Parameters,
}

} // verus!
