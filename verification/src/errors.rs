//! Error kinds the core distinguishes, and the mempool's own error type.

use vstd::prelude::*;
use crate::types::{Digest, PublicKey, RoundNumber};

verus! {

/// Errors raised by the mempool configuration layer.
#[derive(Clone, Copy, PartialEq, Eq, Structural, Debug)]
pub enum MempoolError {
    /// The named key is not a member of the committee.
    NotInCommittee(PublicKey),
}

pub type MempoolResult<T> = Result<T, MempoolError>;

/// Error kinds of the consensus core. Message-level validation failures are
/// recovered locally: the offending message is dropped and the core continues.
#[derive(Clone, Copy, PartialEq, Eq, Structural, Debug)]
pub enum DiemError {
    /// A message could not be decoded from its wire form.
    SerializationError,
    /// The transport failed.
    NetworkError,
    /// The persistent store failed or lacks a block it must hold.
    StoreError,
    /// An internal channel closed.
    ChannelError,
    /// A signature does not verify.
    InvalidSignature,
    /// A vote arrived at a replica that is not its intended recipient, or too
    /// late to matter; the payload names the voter.
    UnexpectedOrLateVote(PublicKey),
    /// The same authority contributed twice to one aggregation.
    AuthorityReuse(PublicKey),
    /// A message came from a key outside the committee.
    UnknownAuthority(PublicKey),
    /// A certificate carries fewer signatures than a quorum.
    QCRequiresQuorum,
    /// A message variant that the current state cannot accept.
    UnexpectedMessage,
    /// A block was authored by the wrong leader for its round.
    WrongLeader { digest: Digest, leader: PublicKey, round: RoundNumber },
    /// A block breaks a structural invariant.
    MalformedBlock,
}

pub type DiemResult<T> = Result<T, DiemError>;

impl From<MempoolError> for DiemError {
    /// A mempool membership failure surfaces as an unknown authority.
    fn from(e: MempoolError) -> (r: DiemError)
    {
        match e {
            MempoolError::NotInCommittee(pk) => DiemError::UnknownAuthority(pk),
        }
    }
}

impl vstd::std_specs::convert::FromSpecImpl<MempoolError> for DiemError {
    open spec fn obeys_from_spec() -> bool {
        true
    }

    open spec fn from_spec(e: MempoolError) -> DiemError {
        match e {
            MempoolError::NotInCommittee(pk) => DiemError::UnknownAuthority(pk),
        }
    }
}

} // verus!
