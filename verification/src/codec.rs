//! The message codec: length-delimited, deterministic, canonical encodings of
//! every message variant, with the decoder proved to invert the encoder.

use vstd::prelude::*;
use crate::messages::{block_eq, qc_eq, Block, CoreMessage, Timeout, Vote, QC};
use crate::types::{Digest, PublicKey, Signature};
use crate::wire::{
    enc_bool, enc_digest, enc_digest_list, enc_opt_key, enc_signature, enc_u64, enc_votes_list,
    get_bool, get_digest, get_digest_list, get_opt_key, get_signature, get_u64, get_votes_list,
    lemma_enc_digest_seq, lemma_enc_u64, lemma_enc_votes_seq, put_bool, put_digest,
    put_digest_list, put_opt_key, put_signature, put_u64, put_votes_list,
};

verus! {

/// View-level equality of votes.
pub open spec fn vote_eq(a: Vote, b: Vote) -> bool {
    &&& a.hash == b.hash
    &&& a.round == b.round
    &&& a.view == b.view
    &&& a.height == b.height
    &&& a.fallback == b.fallback
    &&& a.block_author == b.block_author
    &&& a.author == b.author
    &&& qc_eq(a.parent_qc, b.parent_qc)
    &&& a.signature == b.signature
}

/// View-level equality of timeouts.
pub open spec fn timeout_eq(a: Timeout, b: Timeout) -> bool {
    &&& qc_eq(a.high_qc, b.high_qc)
    &&& a.round == b.round
    &&& a.author == b.author
    &&& a.signature == b.signature
}

/// View-level equality of messages.
pub open spec fn message_eq(a: CoreMessage, b: CoreMessage) -> bool {
    match (a, b) {
        (CoreMessage::Propose(x), CoreMessage::Propose(y)) => block_eq(x, y),
        (CoreMessage::Vote(x), CoreMessage::Vote(y)) => vote_eq(x, y),
        (CoreMessage::Timeout(x), CoreMessage::Timeout(y)) => timeout_eq(x, y),
        (CoreMessage::SyncRequest(d1, k1), CoreMessage::SyncRequest(d2, k2)) => d1 == d2 && k1
            == k2,
        (CoreMessage::SyncReply(x), CoreMessage::SyncReply(y)) => block_eq(x, y),
        _ => false,
    }
}

/// Canonical encoding of a certificate.
pub open spec fn enc_qc(q: QC) -> Seq<u8> {
    enc_digest(q.hash) + enc_u64(q.view) + enc_u64(q.round) + enc_u64(q.height) + enc_bool(
        q.fallback,
    ) + enc_u64(q.proposer) + enc_votes_list(q.votes@) + enc_opt_key(q.next_leader)
}

/// Canonical encoding of a block.
pub open spec fn enc_block(b: Block) -> Seq<u8> {
    enc_u64(b.author) + enc_u64(b.round) + enc_u64(b.view) + enc_u64(b.height) + enc_bool(
        b.fallback,
    ) + enc_qc(b.qc) + enc_digest_list(b.payload@) + enc_signature(b.signature)
}

/// Canonical encoding of a vote.
pub open spec fn enc_vote(v: Vote) -> Seq<u8> {
    enc_digest(v.hash) + enc_u64(v.round) + enc_u64(v.view) + enc_u64(v.height) + enc_bool(
        v.fallback,
    ) + enc_u64(v.block_author) + enc_u64(v.author) + enc_qc(v.parent_qc) + enc_signature(
        v.signature,
    )
}

/// Canonical encoding of a timeout.
pub open spec fn enc_timeout(t: Timeout) -> Seq<u8> {
    enc_qc(t.high_qc) + enc_u64(t.round) + enc_u64(t.author) + enc_signature(t.signature)
}

/// Canonical encoding of a message: a one-byte variant tag, then the record.
pub open spec fn enc_message(m: CoreMessage) -> Seq<u8> {
    match m {
        CoreMessage::Propose(b) => seq![0u8] + enc_block(b),
        CoreMessage::Vote(v) => seq![1u8] + enc_vote(v),
        CoreMessage::Timeout(t) => seq![2u8] + enc_timeout(t),
        CoreMessage::SyncRequest(d, k) => seq![3u8] + enc_digest(d) + enc_u64(k),
        CoreMessage::SyncReply(b) => seq![4u8] + enc_block(b),
    }
}

/// Lengths of the primitive encodings.
pub proof fn lemma_enc_lens()
    ensures
        forall|x: u64| (#[trigger] enc_u64(x)).len() == 8,
        forall|b: bool| (#[trigger] enc_bool(b)).len() == 1,
        forall|d: Digest| (#[trigger] enc_digest(d)).len() == 32,
        forall|s: Signature| (#[trigger] enc_signature(s)).len() == 40,
        forall|o: Option<PublicKey>|
            (#[trigger] enc_opt_key(o)).len() == if o is Some {
                9int
            } else {
                1int
            },
        forall|v: Seq<(PublicKey, Signature)>|
            (#[trigger] enc_votes_list(v)).len() == 8 + 48 * v.len(),
        forall|v: Seq<Digest>| (#[trigger] enc_digest_list(v)).len() == 8 + 32 * v.len(),
{
    assert forall|x: u64| (#[trigger] enc_u64(x)).len() == 8 by {
        lemma_enc_u64(x);
    }
    assert forall|o: Option<PublicKey>| (#[trigger] enc_opt_key(o)).len() == if o is Some {
        9int
    } else {
        1int
    } by {
        if o is Some {
            lemma_enc_u64(o->0);
        }
    }
    assert forall|v: Seq<(PublicKey, Signature)>| (#[trigger] enc_votes_list(v)).len() == 8 + 48
        * v.len() by {
        lemma_enc_votes_seq(v);
        lemma_enc_u64(v.len() as u64);
    }
    assert forall|v: Seq<Digest>| (#[trigger] enc_digest_list(v)).len() == 8 + 32 * v.len() by {
        lemma_enc_digest_seq(v);
        lemma_enc_u64(v.len() as u64);
    }
}

/// Appends the encoding of a certificate.
pub fn put_qc(out: &mut Vec<u8>, q: &QC)
    ensures
        final(out)@ == old(out)@ + enc_qc(*q),
{
    put_digest(out, &q.hash);
    put_u64(out, q.view);
    put_u64(out, q.round);
    put_u64(out, q.height);
    put_bool(out, q.fallback);
    put_u64(out, q.proposer);
    put_votes_list(out, &q.votes);
    put_opt_key(out, &q.next_leader);
    proof {
        assert(final(out)@ =~= old(out)@ + enc_qc(*q));
    }
}

/// Reads a certificate at `pos`.
#[verifier::rlimit(100)]
#[verifier::spinoff_prover]
pub fn get_qc(bytes: &Vec<u8>, pos: usize) -> (r: Option<(QC, usize)>)
    ensures
        r is Some ==> pos <= (r->0).1 <= bytes@.len() && bytes@.subrange(
            pos as int,
            (r->0).1 as int,
        ) == enc_qc((r->0).0),
        forall|q: QC|
            pos + enc_qc(q).len() <= bytes@.len() && bytes@.subrange(
                pos as int,
                pos + enc_qc(q).len(),
            ) == enc_qc(q) ==> (r is Some && qc_eq((r->0).0, q) && (r->0).1 == pos + enc_qc(
                q,
            ).len()),
{
    proof {
        lemma_enc_lens();
        assert forall|q: QC|
            pos + enc_qc(q).len() <= bytes@.len() && bytes@.subrange(
                pos as int,
                pos + enc_qc(q).len(),
            ) == enc_qc(q) implies qc_premises(bytes@, pos as int, q) by {
            let p = pos as int;
            let w = enc_qc(q);
            let l7 = enc_votes_list(q.votes@).len() as int;
            let l8 = enc_opt_key(q.next_leader).len() as int;
            assert(bytes@.subrange(p + 0, p + 32) =~= enc_digest(q.hash)) by {
                assert forall|k: int| 0 <= k < enc_digest(q.hash).len() implies bytes@.subrange(
                    p + 0,
                    p + 32,
                )[k] == enc_digest(q.hash)[k] by {
                    assert(bytes@.subrange(p, p + w.len())[0 + k] == w[0 + k]);
                    assert(w.subrange(0, 32)[k] == w[0 + k]);
                    assert(w.subrange(0, 32) =~= enc_digest(q.hash));
                }
            }
            assert(bytes@.subrange(p + 32, p + 40) =~= enc_u64(q.view)) by {
                assert forall|k: int| 0 <= k < enc_u64(q.view).len() implies bytes@.subrange(
                    p + 32,
                    p + 40,
                )[k] == enc_u64(q.view)[k] by {
                    assert(bytes@.subrange(p, p + w.len())[32 + k] == w[32 + k]);
                    assert(w.subrange(32, 40)[k] == w[32 + k]);
                    assert(w.subrange(32, 40) =~= enc_u64(q.view));
                }
            }
            assert(bytes@.subrange(p + 40, p + 48) =~= enc_u64(q.round)) by {
                assert forall|k: int| 0 <= k < enc_u64(q.round).len() implies bytes@.subrange(
                    p + 40,
                    p + 48,
                )[k] == enc_u64(q.round)[k] by {
                    assert(bytes@.subrange(p, p + w.len())[40 + k] == w[40 + k]);
                    assert(w.subrange(40, 48)[k] == w[40 + k]);
                    assert(w.subrange(40, 48) =~= enc_u64(q.round));
                }
            }
            assert(bytes@.subrange(p + 48, p + 56) =~= enc_u64(q.height)) by {
                assert forall|k: int| 0 <= k < enc_u64(q.height).len() implies bytes@.subrange(
                    p + 48,
                    p + 56,
                )[k] == enc_u64(q.height)[k] by {
                    assert(bytes@.subrange(p, p + w.len())[48 + k] == w[48 + k]);
                    assert(w.subrange(48, 56)[k] == w[48 + k]);
                    assert(w.subrange(48, 56) =~= enc_u64(q.height));
                }
            }
            assert(bytes@.subrange(p + 56, p + 57) =~= enc_bool(q.fallback)) by {
                assert forall|k: int| 0 <= k < enc_bool(q.fallback).len() implies bytes@.subrange(
                    p + 56,
                    p + 57,
                )[k] == enc_bool(q.fallback)[k] by {
                    assert(bytes@.subrange(p, p + w.len())[56 + k] == w[56 + k]);
                    assert(w.subrange(56, 57)[k] == w[56 + k]);
                    assert(w.subrange(56, 57) =~= enc_bool(q.fallback));
                }
            }
            assert(bytes@.subrange(p + 57, p + 65) =~= enc_u64(q.proposer)) by {
                assert forall|k: int| 0 <= k < enc_u64(q.proposer).len() implies bytes@.subrange(
                    p + 57,
                    p + 65,
                )[k] == enc_u64(q.proposer)[k] by {
                    assert(bytes@.subrange(p, p + w.len())[57 + k] == w[57 + k]);
                    assert(w.subrange(57, 65)[k] == w[57 + k]);
                    assert(w.subrange(57, 65) =~= enc_u64(q.proposer));
                }
            }
            assert(bytes@.subrange(p + 65, p + 65 + l7) =~= enc_votes_list(q.votes@)) by {
                assert forall|k: int| 0 <= k < enc_votes_list(q.votes@).len() implies bytes@.subrange(
                    p + 65,
                    p + 65 + l7,
                )[k] == enc_votes_list(q.votes@)[k] by {
                    assert(bytes@.subrange(p, p + w.len())[65 + k] == w[65 + k]);
                    assert(w.subrange(65, 65 + l7)[k] == w[65 + k]);
                    assert(w.subrange(65, 65 + l7) =~= enc_votes_list(q.votes@));
                }
            }
            assert(bytes@.subrange(p + 65 + l7, p + 65 + l7 + l8) =~= enc_opt_key(q.next_leader)) by {
                assert forall|k: int| 0 <= k < enc_opt_key(q.next_leader).len() implies bytes@.subrange(
                    p + 65 + l7,
                    p + 65 + l7 + l8,
                )[k] == enc_opt_key(q.next_leader)[k] by {
                    assert(bytes@.subrange(p, p + w.len())[65 + l7 + k] == w[65 + l7 + k]);
                    assert(w.subrange(65 + l7, 65 + l7 + l8)[k] == w[65 + l7 + k]);
                    assert(w.subrange(65 + l7, 65 + l7 + l8) =~= enc_opt_key(q.next_leader));
                }
            }
        }
    }
    let (hash, p1) = match get_digest(bytes, pos) {
        Some(x) => x,
        None => {
            return None;
        },
    };
    let (view, p2) = match get_u64(bytes, p1) {
        Some(x) => x,
        None => {
            return None;
        },
    };
    let (round, p3) = match get_u64(bytes, p2) {
        Some(x) => x,
        None => {
            return None;
        },
    };
    let (height, p4) = match get_u64(bytes, p3) {
        Some(x) => x,
        None => {
            return None;
        },
    };
    let (fallback, p5) = match get_bool(bytes, p4) {
        Some(x) => x,
        None => {
            return None;
        },
    };
    let (proposer, p6) = match get_u64(bytes, p5) {
        Some(x) => x,
        None => {
            return None;
        },
    };
    let (votes, p7) = match get_votes_list(bytes, p6) {
        Some(x) => x,
        None => {
            return None;
        },
    };
    let (next_leader, p8) = match get_opt_key(bytes, p7) {
        Some(x) => x,
        None => {
            return None;
        },
    };
    let q = QC { hash, view, round, height, fallback, proposer, votes, next_leader };
    proof {
        lemma_enc_lens();
        assert(bytes@.subrange(pos as int, p8 as int) =~= enc_qc(q));
    }
    Some((q, p8))
}

/// The field placements a certificate encoding at `pos` induces.
pub open spec fn qc_premises(bytes: Seq<u8>, p: int, q: QC) -> bool {
    &&& bytes.subrange(p, p + 32) == enc_digest(q.hash)
    &&& bytes.subrange(p + 32, p + 40) == enc_u64(q.view)
    &&& bytes.subrange(p + 40, p + 48) == enc_u64(q.round)
    &&& bytes.subrange(p + 48, p + 56) == enc_u64(q.height)
    &&& bytes.subrange(p + 56, p + 57) == enc_bool(q.fallback)
    &&& bytes.subrange(p + 57, p + 65) == enc_u64(q.proposer)
    &&& bytes.subrange(p + 65, p + 65 + enc_votes_list(q.votes@).len()) == enc_votes_list(
        q.votes@,
    )
    &&& bytes.subrange(
        p + 65 + enc_votes_list(q.votes@).len(),
        p + 65 + enc_votes_list(q.votes@).len() + enc_opt_key(q.next_leader).len(),
    ) == enc_opt_key(q.next_leader)
}


/// Appends the encoding of a block.
pub fn put_block(out: &mut Vec<u8>, b: &Block)
    ensures
        final(out)@ == old(out)@ + enc_block(*b),
{
    put_u64(out, b.author);
    put_u64(out, b.round);
    put_u64(out, b.view);
    put_u64(out, b.height);
    put_bool(out, b.fallback);
    put_qc(out, &b.qc);
    put_digest_list(out, &b.payload);
    put_signature(out, &b.signature);
    proof {
        assert(final(out)@ =~= old(out)@ + enc_block(*b));
    }
}

/// Reads a block at `pos`.
#[verifier::rlimit(100)]
#[verifier::spinoff_prover]
pub fn get_block(bytes: &Vec<u8>, pos: usize) -> (r: Option<(Block, usize)>)
    ensures
        r is Some ==> pos <= (r->0).1 <= bytes@.len() && bytes@.subrange(
            pos as int,
            (r->0).1 as int,
        ) == enc_block((r->0).0),
        forall|b: Block|
            pos + enc_block(b).len() <= bytes@.len() && bytes@.subrange(
                pos as int,
                pos + enc_block(b).len(),
            ) == enc_block(b) ==> (r is Some && block_eq((r->0).0, b) && (r->0).1 == pos
                + enc_block(b).len()),
{
    proof {
        lemma_enc_lens();
        assert forall|b: Block|
            pos + enc_block(b).len() <= bytes@.len() && bytes@.subrange(
                pos as int,
                pos + enc_block(b).len(),
            ) == enc_block(b) implies block_premises(bytes@, pos as int, b) by {
            let p = pos as int;
            let w = enc_block(b);
            let lq = enc_qc(b.qc).len() as int;
            let lp = enc_digest_list(b.payload@).len() as int;
            assert(bytes@.subrange(p + 0, p + 8) =~= enc_u64(b.author)) by {
                assert forall|k: int| 0 <= k < enc_u64(b.author).len() implies bytes@.subrange(
                    p + 0,
                    p + 8,
                )[k] == enc_u64(b.author)[k] by {
                    assert(bytes@.subrange(p, p + w.len())[0 + k] == w[0 + k]);
                    assert(w.subrange(0, 8)[k] == w[0 + k]);
                    assert(w.subrange(0, 8) =~= enc_u64(b.author));
                }
            }
            assert(bytes@.subrange(p + 8, p + 16) =~= enc_u64(b.round)) by {
                assert forall|k: int| 0 <= k < enc_u64(b.round).len() implies bytes@.subrange(
                    p + 8,
                    p + 16,
                )[k] == enc_u64(b.round)[k] by {
                    assert(bytes@.subrange(p, p + w.len())[8 + k] == w[8 + k]);
                    assert(w.subrange(8, 16)[k] == w[8 + k]);
                    assert(w.subrange(8, 16) =~= enc_u64(b.round));
                }
            }
            assert(bytes@.subrange(p + 16, p + 24) =~= enc_u64(b.view)) by {
                assert forall|k: int| 0 <= k < enc_u64(b.view).len() implies bytes@.subrange(
                    p + 16,
                    p + 24,
                )[k] == enc_u64(b.view)[k] by {
                    assert(bytes@.subrange(p, p + w.len())[16 + k] == w[16 + k]);
                    assert(w.subrange(16, 24)[k] == w[16 + k]);
                    assert(w.subrange(16, 24) =~= enc_u64(b.view));
                }
            }
            assert(bytes@.subrange(p + 24, p + 32) =~= enc_u64(b.height)) by {
                assert forall|k: int| 0 <= k < enc_u64(b.height).len() implies bytes@.subrange(
                    p + 24,
                    p + 32,
                )[k] == enc_u64(b.height)[k] by {
                    assert(bytes@.subrange(p, p + w.len())[24 + k] == w[24 + k]);
                    assert(w.subrange(24, 32)[k] == w[24 + k]);
                    assert(w.subrange(24, 32) =~= enc_u64(b.height));
                }
            }
            assert(bytes@.subrange(p + 32, p + 33) =~= enc_bool(b.fallback)) by {
                assert forall|k: int| 0 <= k < enc_bool(b.fallback).len() implies bytes@.subrange(
                    p + 32,
                    p + 33,
                )[k] == enc_bool(b.fallback)[k] by {
                    assert(bytes@.subrange(p, p + w.len())[32 + k] == w[32 + k]);
                    assert(w.subrange(32, 33)[k] == w[32 + k]);
                    assert(w.subrange(32, 33) =~= enc_bool(b.fallback));
                }
            }
            assert(bytes@.subrange(p + 33, p + 33 + lq) =~= enc_qc(b.qc)) by {
                assert forall|k: int| 0 <= k < enc_qc(b.qc).len() implies bytes@.subrange(
                    p + 33,
                    p + 33 + lq,
                )[k] == enc_qc(b.qc)[k] by {
                    assert(bytes@.subrange(p, p + w.len())[33 + k] == w[33 + k]);
                    assert(w.subrange(33, 33 + lq)[k] == w[33 + k]);
                    assert(w.subrange(33, 33 + lq) =~= enc_qc(b.qc));
                }
            }
            assert(bytes@.subrange(p + 33 + lq, p + 33 + lq + lp) =~= enc_digest_list(b.payload@)) by {
                assert forall|k: int| 0 <= k < enc_digest_list(b.payload@).len() implies bytes@.subrange(
                    p + 33 + lq,
                    p + 33 + lq + lp,
                )[k] == enc_digest_list(b.payload@)[k] by {
                    assert(bytes@.subrange(p, p + w.len())[33 + lq + k] == w[33 + lq + k]);
                    assert(w.subrange(33 + lq, 33 + lq + lp)[k] == w[33 + lq + k]);
                    assert(w.subrange(33 + lq, 33 + lq + lp) =~= enc_digest_list(b.payload@));
                }
            }
            assert(bytes@.subrange(p + 33 + lq + lp, p + 33 + lq + lp + 40) =~= enc_signature(b.signature)) by {
                assert forall|k: int| 0 <= k < enc_signature(b.signature).len() implies bytes@.subrange(
                    p + 33 + lq + lp,
                    p + 33 + lq + lp + 40,
                )[k] == enc_signature(b.signature)[k] by {
                    assert(bytes@.subrange(p, p + w.len())[33 + lq + lp + k] == w[33 + lq + lp + k]);
                    assert(w.subrange(33 + lq + lp, 33 + lq + lp + 40)[k] == w[33 + lq + lp + k]);
                    assert(w.subrange(33 + lq + lp, 33 + lq + lp + 40) =~= enc_signature(b.signature));
                }
            }
        }
    }
    let (author, p1) = match get_u64(bytes, pos) {
        Some(x) => x,
        None => {
            return None;
        },
    };
    let (round, p2) = match get_u64(bytes, p1) {
        Some(x) => x,
        None => {
            return None;
        },
    };
    let (view, p3) = match get_u64(bytes, p2) {
        Some(x) => x,
        None => {
            return None;
        },
    };
    let (height, p4) = match get_u64(bytes, p3) {
        Some(x) => x,
        None => {
            return None;
        },
    };
    let (fallback, p5) = match get_bool(bytes, p4) {
        Some(x) => x,
        None => {
            return None;
        },
    };
    let (qc, p6) = match get_qc(bytes, p5) {
        Some(x) => x,
        None => {
            return None;
        },
    };
    let (payload, p7) = match get_digest_list(bytes, p6) {
        Some(x) => x,
        None => {
            return None;
        },
    };
    let (signature, p8) = match get_signature(bytes, p7) {
        Some(x) => x,
        None => {
            return None;
        },
    };
    let b = Block { author, round, view, height, fallback, qc, payload, signature };
    proof {
        lemma_enc_lens();
        assert(bytes@.subrange(pos as int, p8 as int) =~= enc_block(b));
    }
    Some((b, p8))
}

/// The field placements a block encoding at `pos` induces.
pub open spec fn block_premises(bytes: Seq<u8>, p: int, b: Block) -> bool {
    &&& bytes.subrange(p, p + 8) == enc_u64(b.author)
    &&& bytes.subrange(p + 8, p + 16) == enc_u64(b.round)
    &&& bytes.subrange(p + 16, p + 24) == enc_u64(b.view)
    &&& bytes.subrange(p + 24, p + 32) == enc_u64(b.height)
    &&& bytes.subrange(p + 32, p + 33) == enc_bool(b.fallback)
    &&& bytes.subrange(p + 33, p + 33 + enc_qc(b.qc).len()) == enc_qc(b.qc)
    &&& bytes.subrange(
        p + 33 + enc_qc(b.qc).len(),
        p + 33 + enc_qc(b.qc).len() + enc_digest_list(b.payload@).len(),
    ) == enc_digest_list(b.payload@)
    &&& bytes.subrange(
        p + 33 + enc_qc(b.qc).len() + enc_digest_list(b.payload@).len(),
        p + 33 + enc_qc(b.qc).len() + enc_digest_list(b.payload@).len() + 40,
    ) == enc_signature(b.signature)
}

/// Appends the encoding of a vote.
pub fn put_vote(out: &mut Vec<u8>, v: &Vote)
    ensures
        final(out)@ == old(out)@ + enc_vote(*v),
{
    put_digest(out, &v.hash);
    put_u64(out, v.round);
    put_u64(out, v.view);
    put_u64(out, v.height);
    put_bool(out, v.fallback);
    put_u64(out, v.block_author);
    put_u64(out, v.author);
    put_qc(out, &v.parent_qc);
    put_signature(out, &v.signature);
    proof {
        assert(final(out)@ =~= old(out)@ + enc_vote(*v));
    }
}

/// Reads a vote at `pos`.
#[verifier::rlimit(100)]
#[verifier::spinoff_prover]
pub fn get_vote(bytes: &Vec<u8>, pos: usize) -> (r: Option<(Vote, usize)>)
    ensures
        r is Some ==> pos <= (r->0).1 <= bytes@.len() && bytes@.subrange(
            pos as int,
            (r->0).1 as int,
        ) == enc_vote((r->0).0),
        forall|v: Vote|
            pos + enc_vote(v).len() <= bytes@.len() && bytes@.subrange(
                pos as int,
                pos + enc_vote(v).len(),
            ) == enc_vote(v) ==> (r is Some && vote_eq((r->0).0, v) && (r->0).1 == pos + enc_vote(
                v,
            ).len()),
{
    proof {
        lemma_enc_lens();
        assert forall|v: Vote|
            pos + enc_vote(v).len() <= bytes@.len() && bytes@.subrange(
                pos as int,
                pos + enc_vote(v).len(),
            ) == enc_vote(v) implies vote_premises(bytes@, pos as int, v) by {
            let p = pos as int;
            let w = enc_vote(v);
            let lq = enc_qc(v.parent_qc).len() as int;
            assert(bytes@.subrange(p + 0, p + 32) =~= enc_digest(v.hash)) by {
                assert forall|k: int| 0 <= k < enc_digest(v.hash).len() implies bytes@.subrange(
                    p + 0,
                    p + 32,
                )[k] == enc_digest(v.hash)[k] by {
                    assert(bytes@.subrange(p, p + w.len())[0 + k] == w[0 + k]);
                    assert(w.subrange(0, 32)[k] == w[0 + k]);
                    assert(w.subrange(0, 32) =~= enc_digest(v.hash));
                }
            }
            assert(bytes@.subrange(p + 32, p + 40) =~= enc_u64(v.round)) by {
                assert forall|k: int| 0 <= k < enc_u64(v.round).len() implies bytes@.subrange(
                    p + 32,
                    p + 40,
                )[k] == enc_u64(v.round)[k] by {
                    assert(bytes@.subrange(p, p + w.len())[32 + k] == w[32 + k]);
                    assert(w.subrange(32, 40)[k] == w[32 + k]);
                    assert(w.subrange(32, 40) =~= enc_u64(v.round));
                }
            }
            assert(bytes@.subrange(p + 40, p + 48) =~= enc_u64(v.view)) by {
                assert forall|k: int| 0 <= k < enc_u64(v.view).len() implies bytes@.subrange(
                    p + 40,
                    p + 48,
                )[k] == enc_u64(v.view)[k] by {
                    assert(bytes@.subrange(p, p + w.len())[40 + k] == w[40 + k]);
                    assert(w.subrange(40, 48)[k] == w[40 + k]);
                    assert(w.subrange(40, 48) =~= enc_u64(v.view));
                }
            }
            assert(bytes@.subrange(p + 48, p + 56) =~= enc_u64(v.height)) by {
                assert forall|k: int| 0 <= k < enc_u64(v.height).len() implies bytes@.subrange(
                    p + 48,
                    p + 56,
                )[k] == enc_u64(v.height)[k] by {
                    assert(bytes@.subrange(p, p + w.len())[48 + k] == w[48 + k]);
                    assert(w.subrange(48, 56)[k] == w[48 + k]);
                    assert(w.subrange(48, 56) =~= enc_u64(v.height));
                }
            }
            assert(bytes@.subrange(p + 56, p + 57) =~= enc_bool(v.fallback)) by {
                assert forall|k: int| 0 <= k < enc_bool(v.fallback).len() implies bytes@.subrange(
                    p + 56,
                    p + 57,
                )[k] == enc_bool(v.fallback)[k] by {
                    assert(bytes@.subrange(p, p + w.len())[56 + k] == w[56 + k]);
                    assert(w.subrange(56, 57)[k] == w[56 + k]);
                    assert(w.subrange(56, 57) =~= enc_bool(v.fallback));
                }
            }
            assert(bytes@.subrange(p + 57, p + 65) =~= enc_u64(v.block_author)) by {
                assert forall|k: int| 0 <= k < enc_u64(v.block_author).len() implies bytes@.subrange(
                    p + 57,
                    p + 65,
                )[k] == enc_u64(v.block_author)[k] by {
                    assert(bytes@.subrange(p, p + w.len())[57 + k] == w[57 + k]);
                    assert(w.subrange(57, 65)[k] == w[57 + k]);
                    assert(w.subrange(57, 65) =~= enc_u64(v.block_author));
                }
            }
            assert(bytes@.subrange(p + 65, p + 73) =~= enc_u64(v.author)) by {
                assert forall|k: int| 0 <= k < enc_u64(v.author).len() implies bytes@.subrange(
                    p + 65,
                    p + 73,
                )[k] == enc_u64(v.author)[k] by {
                    assert(bytes@.subrange(p, p + w.len())[65 + k] == w[65 + k]);
                    assert(w.subrange(65, 73)[k] == w[65 + k]);
                    assert(w.subrange(65, 73) =~= enc_u64(v.author));
                }
            }
            assert(bytes@.subrange(p + 73, p + 73 + lq) =~= enc_qc(v.parent_qc)) by {
                assert forall|k: int| 0 <= k < enc_qc(v.parent_qc).len() implies bytes@.subrange(
                    p + 73,
                    p + 73 + lq,
                )[k] == enc_qc(v.parent_qc)[k] by {
                    assert(bytes@.subrange(p, p + w.len())[73 + k] == w[73 + k]);
                    assert(w.subrange(73, 73 + lq)[k] == w[73 + k]);
                    assert(w.subrange(73, 73 + lq) =~= enc_qc(v.parent_qc));
                }
            }
            assert(bytes@.subrange(p + 73 + lq, p + 73 + lq + 40) =~= enc_signature(v.signature)) by {
                assert forall|k: int| 0 <= k < enc_signature(v.signature).len() implies bytes@.subrange(
                    p + 73 + lq,
                    p + 73 + lq + 40,
                )[k] == enc_signature(v.signature)[k] by {
                    assert(bytes@.subrange(p, p + w.len())[73 + lq + k] == w[73 + lq + k]);
                    assert(w.subrange(73 + lq, 73 + lq + 40)[k] == w[73 + lq + k]);
                    assert(w.subrange(73 + lq, 73 + lq + 40) =~= enc_signature(v.signature));
                }
            }
        }
    }
    let (hash, p1) = match get_digest(bytes, pos) {
        Some(x) => x,
        None => {
            return None;
        },
    };
    let (round, p2) = match get_u64(bytes, p1) {
        Some(x) => x,
        None => {
            return None;
        },
    };
    let (view, p3) = match get_u64(bytes, p2) {
        Some(x) => x,
        None => {
            return None;
        },
    };
    let (height, p4) = match get_u64(bytes, p3) {
        Some(x) => x,
        None => {
            return None;
        },
    };
    let (fallback, p5) = match get_bool(bytes, p4) {
        Some(x) => x,
        None => {
            return None;
        },
    };
    let (block_author, p6) = match get_u64(bytes, p5) {
        Some(x) => x,
        None => {
            return None;
        },
    };
    let (author, p7) = match get_u64(bytes, p6) {
        Some(x) => x,
        None => {
            return None;
        },
    };
    let (parent_qc, p8) = match get_qc(bytes, p7) {
        Some(x) => x,
        None => {
            return None;
        },
    };
    let (signature, p9) = match get_signature(bytes, p8) {
        Some(x) => x,
        None => {
            return None;
        },
    };
    let v = Vote { hash, round, view, height, fallback, block_author, author, parent_qc,
        signature };
    proof {
        lemma_enc_lens();
        assert(bytes@.subrange(pos as int, p9 as int) =~= enc_vote(v));
    }
    Some((v, p9))
}

/// The field placements a vote encoding at `pos` induces.
pub open spec fn vote_premises(bytes: Seq<u8>, p: int, v: Vote) -> bool {
    &&& bytes.subrange(p, p + 32) == enc_digest(v.hash)
    &&& bytes.subrange(p + 32, p + 40) == enc_u64(v.round)
    &&& bytes.subrange(p + 40, p + 48) == enc_u64(v.view)
    &&& bytes.subrange(p + 48, p + 56) == enc_u64(v.height)
    &&& bytes.subrange(p + 56, p + 57) == enc_bool(v.fallback)
    &&& bytes.subrange(p + 57, p + 65) == enc_u64(v.block_author)
    &&& bytes.subrange(p + 65, p + 73) == enc_u64(v.author)
    &&& bytes.subrange(p + 73, p + 73 + enc_qc(v.parent_qc).len()) == enc_qc(v.parent_qc)
    &&& bytes.subrange(
        p + 73 + enc_qc(v.parent_qc).len(),
        p + 73 + enc_qc(v.parent_qc).len() + 40,
    ) == enc_signature(v.signature)
}

/// Appends the encoding of a timeout.
pub fn put_timeout(out: &mut Vec<u8>, t: &Timeout)
    ensures
        final(out)@ == old(out)@ + enc_timeout(*t),
{
    put_qc(out, &t.high_qc);
    put_u64(out, t.round);
    put_u64(out, t.author);
    put_signature(out, &t.signature);
    proof {
        assert(final(out)@ =~= old(out)@ + enc_timeout(*t));
    }
}

/// Reads a timeout at `pos`.
#[verifier::rlimit(100)]
#[verifier::spinoff_prover]
pub fn get_timeout(bytes: &Vec<u8>, pos: usize) -> (r: Option<(Timeout, usize)>)
    ensures
        r is Some ==> pos <= (r->0).1 <= bytes@.len() && bytes@.subrange(
            pos as int,
            (r->0).1 as int,
        ) == enc_timeout((r->0).0),
        forall|t: Timeout|
            pos + enc_timeout(t).len() <= bytes@.len() && bytes@.subrange(
                pos as int,
                pos + enc_timeout(t).len(),
            ) == enc_timeout(t) ==> (r is Some && timeout_eq((r->0).0, t) && (r->0).1 == pos
                + enc_timeout(t).len()),
{
    proof {
        lemma_enc_lens();
        assert forall|t: Timeout|
            pos + enc_timeout(t).len() <= bytes@.len() && bytes@.subrange(
                pos as int,
                pos + enc_timeout(t).len(),
            ) == enc_timeout(t) implies timeout_premises(bytes@, pos as int, t) by {
            let p = pos as int;
            let w = enc_timeout(t);
            let lq = enc_qc(t.high_qc).len() as int;
            assert(bytes@.subrange(p + 0, p + lq) =~= enc_qc(t.high_qc)) by {
                assert forall|k: int| 0 <= k < enc_qc(t.high_qc).len() implies bytes@.subrange(
                    p + 0,
                    p + lq,
                )[k] == enc_qc(t.high_qc)[k] by {
                    assert(bytes@.subrange(p, p + w.len())[0 + k] == w[0 + k]);
                    assert(w.subrange(0, lq)[k] == w[0 + k]);
                    assert(w.subrange(0, lq) =~= enc_qc(t.high_qc));
                }
            }
            assert(bytes@.subrange(p + lq, p + lq + 8) =~= enc_u64(t.round)) by {
                assert forall|k: int| 0 <= k < enc_u64(t.round).len() implies bytes@.subrange(
                    p + lq,
                    p + lq + 8,
                )[k] == enc_u64(t.round)[k] by {
                    assert(bytes@.subrange(p, p + w.len())[lq + k] == w[lq + k]);
                    assert(w.subrange(lq, lq + 8)[k] == w[lq + k]);
                    assert(w.subrange(lq, lq + 8) =~= enc_u64(t.round));
                }
            }
            assert(bytes@.subrange(p + lq + 8, p + lq + 16) =~= enc_u64(t.author)) by {
                assert forall|k: int| 0 <= k < enc_u64(t.author).len() implies bytes@.subrange(
                    p + lq + 8,
                    p + lq + 16,
                )[k] == enc_u64(t.author)[k] by {
                    assert(bytes@.subrange(p, p + w.len())[lq + 8 + k] == w[lq + 8 + k]);
                    assert(w.subrange(lq + 8, lq + 16)[k] == w[lq + 8 + k]);
                    assert(w.subrange(lq + 8, lq + 16) =~= enc_u64(t.author));
                }
            }
            assert(bytes@.subrange(p + lq + 16, p + lq + 56) =~= enc_signature(t.signature)) by {
                assert forall|k: int| 0 <= k < enc_signature(t.signature).len() implies bytes@.subrange(
                    p + lq + 16,
                    p + lq + 56,
                )[k] == enc_signature(t.signature)[k] by {
                    assert(bytes@.subrange(p, p + w.len())[lq + 16 + k] == w[lq + 16 + k]);
                    assert(w.subrange(lq + 16, lq + 56)[k] == w[lq + 16 + k]);
                    assert(w.subrange(lq + 16, lq + 56) =~= enc_signature(t.signature));
                }
            }
        }
    }
    let (high_qc, p1) = match get_qc(bytes, pos) {
        Some(x) => x,
        None => {
            return None;
        },
    };
    let (round, p2) = match get_u64(bytes, p1) {
        Some(x) => x,
        None => {
            return None;
        },
    };
    let (author, p3) = match get_u64(bytes, p2) {
        Some(x) => x,
        None => {
            return None;
        },
    };
    let (signature, p4) = match get_signature(bytes, p3) {
        Some(x) => x,
        None => {
            return None;
        },
    };
    let t = Timeout { high_qc, round, author, signature };
    proof {
        lemma_enc_lens();
        assert(bytes@.subrange(pos as int, p4 as int) =~= enc_timeout(t));
    }
    Some((t, p4))
}

/// The field placements a timeout encoding at `pos` induces.
pub open spec fn timeout_premises(bytes: Seq<u8>, p: int, t: Timeout) -> bool {
    &&& bytes.subrange(p, p + enc_qc(t.high_qc).len()) == enc_qc(t.high_qc)
    &&& bytes.subrange(p + enc_qc(t.high_qc).len(), p + enc_qc(t.high_qc).len() + 8) == enc_u64(
        t.round,
    )
    &&& bytes.subrange(
        p + enc_qc(t.high_qc).len() + 8,
        p + enc_qc(t.high_qc).len() + 16,
    ) == enc_u64(t.author)
    &&& bytes.subrange(
        p + enc_qc(t.high_qc).len() + 16,
        p + enc_qc(t.high_qc).len() + 56,
    ) == enc_signature(t.signature)
}


/// Serializes a message into its canonical wire form.
pub fn serialize_message(m: &CoreMessage) -> (r: Vec<u8>)
    ensures
        r@ == enc_message(*m),
{
    let mut out: Vec<u8> = Vec::new();
    match m {
        CoreMessage::Propose(b) => {
            out.push(0u8);
            put_block(&mut out, b);
        },
        CoreMessage::Vote(v) => {
            out.push(1u8);
            put_vote(&mut out, v);
        },
        CoreMessage::Timeout(t) => {
            out.push(2u8);
            put_timeout(&mut out, t);
        },
        CoreMessage::SyncRequest(d, k) => {
            out.push(3u8);
            put_digest(&mut out, d);
            put_u64(&mut out, *k);
        },
        CoreMessage::SyncReply(b) => {
            out.push(4u8);
            put_block(&mut out, b);
        },
    }
    proof {
        assert(out@ =~= enc_message(*m));
    }
    out
}

/// Deserializes a message from its canonical wire form: it succeeds on every
/// value `serialize_message` produces and returns that message, and whatever
/// it accepts is the canonical encoding of what it returns. The whole input
/// must be consumed.
#[verifier::rlimit(100)]
#[verifier::spinoff_prover]
pub fn deserialize_message(bytes: &Vec<u8>) -> (r: Option<CoreMessage>)
    ensures
        r is Some ==> bytes@ == enc_message(r->0),
        forall|m: CoreMessage|
            bytes@ == enc_message(m) ==> (r is Some && message_eq(r->0, m)),
{
    proof {
        lemma_enc_lens();
        assert forall|m: CoreMessage| bytes@ == enc_message(m) implies bytes@.len() >= 1 && bytes@[0]
            == message_tag(m) && bytes@.len() == 1 + message_body(m).len() && bytes@.subrange(
            1,
            1 + message_body(m).len() as int,
        ) == message_body(m) && sync_request_premises(bytes@, m) by {
            assert(bytes@[0] == enc_message(m)[0]);
            assert(bytes@.subrange(1, bytes@.len() as int) =~= message_body(m));
            match m {
                CoreMessage::SyncRequest(d, k) => {
                    let body = message_body(m);
                    assert(bytes@.subrange(1, 33) =~= enc_digest(d)) by {
                        assert forall|j: int| 0 <= j < 32 implies bytes@.subrange(1, 33)[j]
                            == enc_digest(d)[j] by {
                            assert(bytes@[1 + j] == enc_message(m)[1 + j]);
                            assert(enc_message(m)[1 + j] == body[j]);
                            assert(body[j] == enc_digest(d)[j]);
                        }
                    }
                    assert(bytes@.subrange(33, 41) =~= enc_u64(k)) by {
                        assert forall|j: int| 0 <= j < 8 implies bytes@.subrange(33, 41)[j]
                            == enc_u64(k)[j] by {
                            assert(bytes@[33 + j] == enc_message(m)[33 + j]);
                            assert(enc_message(m)[33 + j] == body[32 + j]);
                            assert(body[32 + j] == enc_u64(k)[j]);
                        }
                    }
                },
                _ => (),
            }
        }
    }
    if bytes.len() == 0 {
        return None;
    }
    let tag = bytes[0];
    if tag == 0 || tag == 4 {
        let (b, p) = match get_block(bytes, 1) {
            Some(x) => x,
            None => {
                return None;
            },
        };
        if p != bytes.len() {
            return None;
        }
        let msg = if tag == 0 {
            CoreMessage::Propose(b)
        } else {
            CoreMessage::SyncReply(b)
        };
        proof {
            assert(bytes@ =~= enc_message(msg));
        }
        Some(msg)
    } else if tag == 1 {
        let (v, p) = match get_vote(bytes, 1) {
            Some(x) => x,
            None => {
                return None;
            },
        };
        if p != bytes.len() {
            return None;
        }
        proof {
            assert(bytes@ =~= enc_message(CoreMessage::Vote(v)));
        }
        Some(CoreMessage::Vote(v))
    } else if tag == 2 {
        let (t, p) = match get_timeout(bytes, 1) {
            Some(x) => x,
            None => {
                return None;
            },
        };
        if p != bytes.len() {
            return None;
        }
        proof {
            assert(bytes@ =~= enc_message(CoreMessage::Timeout(t)));
        }
        Some(CoreMessage::Timeout(t))
    } else if tag == 3 {
        let (d, p1) = match get_digest(bytes, 1) {
            Some(x) => x,
            None => {
                return None;
            },
        };
        let (k, p2) = match get_u64(bytes, p1) {
            Some(x) => x,
            None => {
                return None;
            },
        };
        if p2 != bytes.len() {
            return None;
        }
        proof {
            assert(bytes@ =~= enc_message(CoreMessage::SyncRequest(d, k)));
        }
        Some(CoreMessage::SyncRequest(d, k))
    } else {
        None
    }
}

/// The field placements a request encoding induces.
pub open spec fn sync_request_premises(bytes: Seq<u8>, m: CoreMessage) -> bool {
    m matches CoreMessage::SyncRequest(d, k) ==> bytes.subrange(1, 33) == enc_digest(d)
        && bytes.subrange(33, 41) == enc_u64(k) && bytes.len() == 41
}

/// The variant tag of a message.
pub open spec fn message_tag(m: CoreMessage) -> u8 {
    match m {
        CoreMessage::Propose(_) => 0u8,
        CoreMessage::Vote(_) => 1u8,
        CoreMessage::Timeout(_) => 2u8,
        CoreMessage::SyncRequest(_, _) => 3u8,
        CoreMessage::SyncReply(_) => 4u8,
    }
}

/// The encoded record after the tag.
pub open spec fn message_body(m: CoreMessage) -> Seq<u8> {
    match m {
        CoreMessage::Propose(b) => enc_block(b),
        CoreMessage::Vote(v) => enc_vote(v),
        CoreMessage::Timeout(t) => enc_timeout(t),
        CoreMessage::SyncRequest(d, k) => enc_digest(d) + enc_u64(k),
        CoreMessage::SyncReply(b) => enc_block(b),
    }
}

/// The round trip: deserializing a serialized message yields the message back
/// (at the view level). Stated over the codec contracts; the proof needs only
/// them.
pub fn round_trip(m: &CoreMessage) -> (r: Option<CoreMessage>)
    ensures
        r is Some && message_eq(r->0, *m),
{
    let bytes = serialize_message(m);
    deserialize_message(&bytes)
}

} // verus!
