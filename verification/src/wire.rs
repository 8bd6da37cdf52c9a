//! Canonical wire primitives: deterministic little-endian encodings of the
//! ground types, with decoders proved exact against them. Field order and
//! integer encoding here are the ones the hashed prefixes use.

use vstd::prelude::*;
use vstd::bytes::{
    lemma_auto_spec_u64_to_from_le_bytes, spec_u64_to_le_bytes, u64_from_le_bytes, u64_to_le_bytes,
};
use vstd::slice::slice_subrange;
use crate::types::{Digest, PublicKey, Signature};

verus! {

/// Canonical encoding of a 64-bit integer: 8 bytes, little endian.
pub open spec fn enc_u64(x: u64) -> Seq<u8> {
    spec_u64_to_le_bytes(x)
}

/// Canonical encoding of a flag: one byte, 1 for true and 0 for false.
pub open spec fn enc_bool(b: bool) -> Seq<u8> {
    seq![if b { 1u8 } else { 0u8 }]
}

/// Canonical encoding of a digest: its four lanes in order, 32 bytes.
pub open spec fn enc_digest(d: Digest) -> Seq<u8> {
    enc_u64(d.w0) + enc_u64(d.w1) + enc_u64(d.w2) + enc_u64(d.w3)
}

/// Canonical encoding of a signature: signer then content, 40 bytes.
pub open spec fn enc_signature(s: Signature) -> Seq<u8> {
    enc_u64(s.signer) + enc_digest(s.content)
}

/// Canonical encoding of an optional key: a presence byte, then the key.
pub open spec fn enc_opt_key(o: Option<PublicKey>) -> Seq<u8> {
    match o {
        None => seq![0u8],
        Some(k) => seq![1u8] + enc_u64(k),
    }
}

/// The encoding of a 64-bit integer has 8 bytes and decodes to it.
pub proof fn lemma_enc_u64(x: u64)
    ensures
        enc_u64(x).len() == 8,
        forall|y: u64| enc_u64(y) == enc_u64(x) ==> y == x,
{
    lemma_auto_spec_u64_to_from_le_bytes();
    assert forall|y: u64| enc_u64(y) == enc_u64(x) implies y == x by {
        assert(vstd::bytes::spec_u64_from_le_bytes(enc_u64(y))
            == vstd::bytes::spec_u64_from_le_bytes(enc_u64(x)));
    }
}

/// Appends the encoding of a 64-bit integer.
pub fn put_u64(out: &mut Vec<u8>, x: u64)
    ensures
        final(out)@ == old(out)@ + enc_u64(x),
{
    let mut bytes = u64_to_le_bytes(x);
    out.append(&mut bytes);
}

/// Appends the encoding of a flag.
pub fn put_bool(out: &mut Vec<u8>, b: bool)
    ensures
        final(out)@ == old(out)@ + enc_bool(b),
{
    if b {
        out.push(1u8);
    } else {
        out.push(0u8);
    }
    proof {
        assert(final(out)@ =~= old(out)@ + enc_bool(b));
    }
}

/// Appends the encoding of a digest.
pub fn put_digest(out: &mut Vec<u8>, d: &Digest)
    ensures
        final(out)@ == old(out)@ + enc_digest(*d),
{
    put_u64(out, d.w0);
    put_u64(out, d.w1);
    put_u64(out, d.w2);
    put_u64(out, d.w3);
    proof {
        assert(final(out)@ =~= old(out)@ + enc_digest(*d));
    }
}

/// Appends the encoding of a signature.
pub fn put_signature(out: &mut Vec<u8>, s: &Signature)
    ensures
        final(out)@ == old(out)@ + enc_signature(*s),
{
    put_u64(out, s.signer);
    put_digest(out, &s.content);
    proof {
        assert(final(out)@ =~= old(out)@ + enc_signature(*s));
    }
}

/// Appends the encoding of an optional key.
pub fn put_opt_key(out: &mut Vec<u8>, o: &Option<PublicKey>)
    ensures
        final(out)@ == old(out)@ + enc_opt_key(*o),
{
    match o {
        None => {
            out.push(0u8);
        }
        Some(k) => {
            out.push(1u8);
            put_u64(out, *k);
        }
    }
    proof {
        assert(final(out)@ =~= old(out)@ + enc_opt_key(*o));
    }
}

/// Reads a 64-bit integer at `pos`. Succeeds exactly when 8 bytes remain, and
/// the consumed bytes are the value's canonical encoding.
pub fn get_u64(bytes: &Vec<u8>, pos: usize) -> (r: Option<(u64, usize)>)
    ensures
        r is Some <==> pos + 8 <= bytes@.len(),
        r is Some ==> (r->0).1 == pos + 8
            && bytes@.subrange(pos as int, pos + 8) == enc_u64((r->0).0),
        forall|v: u64|
            pos + 8 <= bytes@.len() && bytes@.subrange(pos as int, pos + 8) == enc_u64(v)
                ==> r == Some((v, (pos + 8) as usize)),
{
    if pos > bytes.len() || bytes.len() - pos < 8 {
        return None;
    }
    let s = slice_subrange(bytes.as_slice(), pos, pos + 8);
    let x = u64_from_le_bytes(s);
    proof {
        lemma_auto_spec_u64_to_from_le_bytes();
        lemma_enc_u64(x);
    }
    Some((x, pos + 8))
}

/// Reads a flag at `pos`. Succeeds exactly when one byte remains holding 0 or
/// 1, and the consumed byte is the flag's canonical encoding.
pub fn get_bool(bytes: &Vec<u8>, pos: usize) -> (r: Option<(bool, usize)>)
    ensures
        r is Some ==> (r->0).1 == pos + 1 && pos + 1 <= bytes@.len()
            && bytes@.subrange(pos as int, pos + 1) == enc_bool((r->0).0),
        forall|v: bool|
            pos + 1 <= bytes@.len() && bytes@.subrange(pos as int, pos + 1) == enc_bool(v)
                ==> r == Some((v, (pos + 1) as usize)),
{
    if pos >= bytes.len() {
        return None;
    }
    let b = bytes[pos];
    proof {
        assert forall|v: bool|
            pos + 1 <= bytes@.len() && bytes@.subrange(pos as int, pos + 1) == enc_bool(v)
            implies bytes@[pos as int] == (if v { 1u8 } else { 0u8 }) by {
            assert(bytes@.subrange(pos as int, pos + 1)[0] == bytes@[pos as int]);
        }
    }
    if b == 1 {
        proof {
            assert(bytes@.subrange(pos as int, pos + 1) =~= enc_bool(true));
        }
        Some((true, pos + 1))
    } else if b == 0 {
        proof {
            assert(bytes@.subrange(pos as int, pos + 1) =~= enc_bool(false));
        }
        Some((false, pos + 1))
    } else {
        None
    }
}

/// Reads a digest at `pos`.
pub fn get_digest(bytes: &Vec<u8>, pos: usize) -> (r: Option<(Digest, usize)>)
    ensures
        r is Some <==> pos + 32 <= bytes@.len(),
        r is Some ==> (r->0).1 == pos + 32
            && bytes@.subrange(pos as int, pos + 32) == enc_digest((r->0).0),
        forall|v: Digest|
            pos + 32 <= bytes@.len() && bytes@.subrange(pos as int, pos + 32) == enc_digest(v)
                ==> r == Some((v, (pos + 32) as usize)),
{
    let (w0, p0) = match get_u64(bytes, pos) {
        Some(x) => x,
        None => {
            return None;
        },
    };
    let (w1, p1) = match get_u64(bytes, p0) {
        Some(x) => x,
        None => {
            return None;
        },
    };
    let (w2, p2) = match get_u64(bytes, p1) {
        Some(x) => x,
        None => {
            return None;
        },
    };
    let (w3, p3) = match get_u64(bytes, p2) {
        Some(x) => x,
        None => {
            return None;
        },
    };
    let d = Digest { w0, w1, w2, w3 };
    proof {
        assert(bytes@.subrange(pos as int, pos + 32) =~= enc_digest(d));
        assert forall|v: Digest|
            pos + 32 <= bytes@.len() && bytes@.subrange(pos as int, pos + 32) == enc_digest(v)
            implies v == d by {
            lemma_enc_u64(v.w0);
            lemma_enc_u64(v.w1);
            lemma_enc_u64(v.w2);
            lemma_enc_u64(v.w3);
            assert(bytes@.subrange(pos as int, pos + 8) =~= enc_digest(v).subrange(0, 8));
            assert(bytes@.subrange(pos + 8, pos + 16) =~= enc_digest(v).subrange(8, 16));
            assert(bytes@.subrange(pos + 16, pos + 24) =~= enc_digest(v).subrange(16, 24));
            assert(bytes@.subrange(pos + 24, pos + 32) =~= enc_digest(v).subrange(24, 32));
            assert(enc_digest(v).subrange(0, 8) =~= enc_u64(v.w0));
            assert(enc_digest(v).subrange(8, 16) =~= enc_u64(v.w1));
            assert(enc_digest(v).subrange(16, 24) =~= enc_u64(v.w2));
            assert(enc_digest(v).subrange(24, 32) =~= enc_u64(v.w3));
            assert(bytes@.subrange(pos as int, pos + 8) == enc_u64(v.w0));
            assert(bytes@.subrange(pos + 8, pos + 16) == enc_u64(v.w1));
            assert(bytes@.subrange(pos + 16, pos + 24) == enc_u64(v.w2));
            assert(bytes@.subrange(pos + 24, pos + 32) == enc_u64(v.w3));
        }
    }
    Some((d, p3))
}

/// Reads a signature at `pos`.
pub fn get_signature(bytes: &Vec<u8>, pos: usize) -> (r: Option<(Signature, usize)>)
    ensures
        r is Some <==> pos + 40 <= bytes@.len(),
        r is Some ==> (r->0).1 == pos + 40
            && bytes@.subrange(pos as int, pos + 40) == enc_signature((r->0).0),
        forall|v: Signature|
            pos + 40 <= bytes@.len() && bytes@.subrange(pos as int, pos + 40) == enc_signature(v)
                ==> r == Some((v, (pos + 40) as usize)),
{
    let (signer, p0) = match get_u64(bytes, pos) {
        Some(x) => x,
        None => {
            return None;
        },
    };
    let (content, p1) = match get_digest(bytes, p0) {
        Some(x) => x,
        None => {
            return None;
        },
    };
    let s = Signature { signer, content };
    proof {
        assert(bytes@.subrange(pos as int, pos + 40) =~= enc_signature(s));
        assert forall|v: Signature|
            pos + 40 <= bytes@.len() && bytes@.subrange(pos as int, pos + 40) == enc_signature(v)
            implies v == s by {
            lemma_enc_u64(v.signer);
            assert(bytes@.subrange(pos as int, pos + 8) =~= enc_signature(v).subrange(0, 8));
            assert(enc_signature(v).subrange(0, 8) =~= enc_u64(v.signer));
            assert(bytes@.subrange(pos as int, pos + 8) == enc_u64(v.signer));
            assert(bytes@.subrange(pos + 8, pos + 40) =~= enc_signature(v).subrange(8, 40));
            assert(enc_signature(v).subrange(8, 40) =~= enc_digest(v.content));
            assert(bytes@.subrange(pos + 8, pos + 40) == enc_digest(v.content));
        }
    }
    Some((s, p1))
}

/// Reads an optional key at `pos`.
pub fn get_opt_key(bytes: &Vec<u8>, pos: usize) -> (r: Option<(Option<PublicKey>, usize)>)
    ensures
        r is Some ==> (r->0).1 <= bytes@.len() && pos <= (r->0).1
            && bytes@.subrange(pos as int, (r->0).1 as int) == enc_opt_key((r->0).0),
        forall|v: Option<PublicKey>|
            pos + enc_opt_key(v).len() <= bytes@.len()
                && bytes@.subrange(pos as int, pos + enc_opt_key(v).len()) == enc_opt_key(v)
                ==> r == Some((v, (pos + enc_opt_key(v).len()) as usize)),
{
    if pos >= bytes.len() {
        return None;
    }
    let tag = bytes[pos];
    if tag == 0 {
        proof {
            assert(bytes@.subrange(pos as int, pos + 1) =~= enc_opt_key(None::<PublicKey>));
            assert forall|v: Option<PublicKey>|
                pos + enc_opt_key(v).len() <= bytes@.len()
                    && bytes@.subrange(pos as int, pos + enc_opt_key(v).len()) == enc_opt_key(v)
                implies v is None by {
                if v is Some {
                    lemma_enc_u64(v->0);
                    assert(enc_opt_key(v).len() == 9);
                    assert(bytes@.subrange(pos as int, pos + 9)[0] == bytes@[pos as int]);
                    assert(enc_opt_key(v)[0] == 1u8);
                }
            }
        }
        Some((None, pos + 1))
    } else if tag == 1 {
        let (k, p1) = match get_u64(bytes, pos + 1) {
            Some(x) => x,
            None => {
                proof {
                    assert forall|v: Option<PublicKey>|
                        pos + enc_opt_key(v).len() <= bytes@.len()
                            && bytes@.subrange(pos as int, pos + enc_opt_key(v).len())
                                == enc_opt_key(v)
                        implies false by {
                        if v is None {
                            assert(bytes@.subrange(pos as int, pos + 1)[0] == bytes@[pos as int]);
                        } else {
                            lemma_enc_u64(v->0);
                            assert(enc_opt_key(v).len() == 9);
                        }
                    }
                }
                return None;
            },
        };
        proof {
            assert(bytes@.subrange(pos as int, p1 as int) =~= enc_opt_key(Some(k)));
            assert forall|v: Option<PublicKey>|
                pos + enc_opt_key(v).len() <= bytes@.len()
                    && bytes@.subrange(pos as int, pos + enc_opt_key(v).len()) == enc_opt_key(v)
                implies v == Some(k) by {
                lemma_enc_u64(k);
                if v is None {
                    assert(bytes@.subrange(pos as int, pos + 1)[0] == bytes@[pos as int]);
                } else {
                    let kk = v->0;
                    lemma_enc_u64(kk);
                    assert(bytes@.subrange(pos as int, pos + 9)[0] == bytes@[pos as int]);
                    assert(bytes@.subrange(pos + 1, pos + 9) =~= enc_opt_key(v).subrange(1, 9));
                    assert(enc_opt_key(v).subrange(1, 9) =~= enc_u64(kk));
                    assert(bytes@.subrange(pos + 1, pos + 9) == enc_u64(kk));
                }
            }
        }
        Some((Some(k), p1))
    } else {
        proof {
            assert forall|v: Option<PublicKey>|
                pos + enc_opt_key(v).len() <= bytes@.len()
                    && bytes@.subrange(pos as int, pos + enc_opt_key(v).len()) == enc_opt_key(v)
                implies false by {
                if v is None {
                    assert(bytes@.subrange(pos as int, pos + 1)[0] == bytes@[pos as int]);
                } else {
                    lemma_enc_u64(v->0);
                    assert(enc_opt_key(v).len() == 9);
                    assert(bytes@.subrange(pos as int, pos + 9)[0] == bytes@[pos as int]);
                    assert(enc_opt_key(v)[0] == 1u8);
                }
            }
        }
        None
    }
}

/// Canonical encoding of one vote entry: voter then signature, 48 bytes.
pub open spec fn enc_vote_pair(p: (PublicKey, Signature)) -> Seq<u8> {
    enc_u64(p.0) + enc_signature(p.1)
}

/// Concatenated encodings of a sequence of vote entries.
pub open spec fn enc_votes_seq(s: Seq<(PublicKey, Signature)>) -> Seq<u8>
    decreases s.len(),
{
    if s.len() == 0 {
        Seq::empty()
    } else {
        enc_votes_seq(s.drop_last()) + enc_vote_pair(s.last())
    }
}

/// Canonical encoding of a vote list: a count, then the entries.
pub open spec fn enc_votes_list(s: Seq<(PublicKey, Signature)>) -> Seq<u8> {
    enc_u64(s.len() as u64) + enc_votes_seq(s)
}

/// Concatenated encodings of a sequence of digests.
pub open spec fn enc_digest_seq(s: Seq<Digest>) -> Seq<u8>
    decreases s.len(),
{
    if s.len() == 0 {
        Seq::empty()
    } else {
        enc_digest_seq(s.drop_last()) + enc_digest(s.last())
    }
}

/// Canonical encoding of a digest list: a count, then the digests.
pub open spec fn enc_digest_list(s: Seq<Digest>) -> Seq<u8> {
    enc_u64(s.len() as u64) + enc_digest_seq(s)
}

/// Length and per-item placement of an encoded vote sequence.
pub proof fn lemma_enc_votes_seq(s: Seq<(PublicKey, Signature)>)
    ensures
        enc_votes_seq(s).len() == 48 * s.len(),
        forall|i: int|
            0 <= i < s.len() ==> #[trigger] enc_votes_seq(s).subrange(48 * i, 48 * i + 48)
                == enc_vote_pair(s[i]),
    decreases s.len(),
{
    lemma_auto_spec_u64_to_from_le_bytes();
    if s.len() > 0 {
        lemma_enc_votes_seq(s.drop_last());
        assert forall|i: int| 0 <= i < s.len() implies #[trigger] enc_votes_seq(s).subrange(
            48 * i,
            48 * i + 48,
        ) == enc_vote_pair(s[i]) by {
            if i < s.len() - 1 {
                assert(enc_votes_seq(s).subrange(48 * i, 48 * i + 48) =~= enc_votes_seq(
                    s.drop_last(),
                ).subrange(48 * i, 48 * i + 48));
                assert(s.drop_last()[i] == s[i]);
            } else {
                assert(enc_votes_seq(s).subrange(48 * i, 48 * i + 48) =~= enc_vote_pair(s.last()));
            }
        }
    }
}

/// Length and per-item placement of an encoded digest sequence.
pub proof fn lemma_enc_digest_seq(s: Seq<Digest>)
    ensures
        enc_digest_seq(s).len() == 32 * s.len(),
        forall|i: int|
            0 <= i < s.len() ==> #[trigger] enc_digest_seq(s).subrange(32 * i, 32 * i + 32)
                == enc_digest(s[i]),
    decreases s.len(),
{
    lemma_auto_spec_u64_to_from_le_bytes();
    if s.len() > 0 {
        lemma_enc_digest_seq(s.drop_last());
        assert forall|i: int| 0 <= i < s.len() implies #[trigger] enc_digest_seq(s).subrange(
            32 * i,
            32 * i + 32,
        ) == enc_digest(s[i]) by {
            if i < s.len() - 1 {
                assert(enc_digest_seq(s).subrange(32 * i, 32 * i + 32) =~= enc_digest_seq(
                    s.drop_last(),
                ).subrange(32 * i, 32 * i + 32));
                assert(s.drop_last()[i] == s[i]);
            } else {
                assert(enc_digest_seq(s).subrange(32 * i, 32 * i + 32) =~= enc_digest(s.last()));
            }
        }
    }
}

/// Appends the encoding of a digest list.
pub fn put_digest_list(out: &mut Vec<u8>, items: &Vec<Digest>)
    ensures
        final(out)@ == old(out)@ + enc_digest_list(items@),
{
    put_u64(out, items.len() as u64);
    let mut i: usize = 0;
    while i < items.len()
        invariant
            i <= items@.len(),
            out@ == old(out)@ + enc_u64(items@.len() as u64) + enc_digest_seq(items@.take(i as int)),
        decreases items@.len() - i,
    {
        put_digest(out, &items[i]);
        proof {
            assert(items@.take(i + 1int).drop_last() =~= items@.take(i as int));
            assert(items@.take(i + 1int).last() == items@[i as int]);
        }
        i = i + 1;
    }
    proof {
        assert(items@.take(items@.len() as int) =~= items@);
        assert(final(out)@ =~= old(out)@ + enc_digest_list(items@));
    }
}

/// Appends the encoding of a vote list.
pub fn put_votes_list(out: &mut Vec<u8>, items: &Vec<(PublicKey, Signature)>)
    ensures
        final(out)@ == old(out)@ + enc_votes_list(items@),
{
    put_u64(out, items.len() as u64);
    let mut i: usize = 0;
    while i < items.len()
        invariant
            i <= items@.len(),
            out@ == old(out)@ + enc_u64(items@.len() as u64) + enc_votes_seq(items@.take(i as int)),
        decreases items@.len() - i,
    {
        let (k, s) = items[i];
        put_u64(out, k);
        put_signature(out, &s);
        proof {
            assert(items@.take(i + 1int).drop_last() =~= items@.take(i as int));
            assert(items@.take(i + 1int).last() == items@[i as int]);
            assert(out@ =~= old(out)@ + enc_u64(items@.len() as u64) + enc_votes_seq(
                items@.take(i + 1int),
            ));
        }
        i = i + 1;
    }
    proof {
        assert(items@.take(items@.len() as int) =~= items@);
        assert(final(out)@ =~= old(out)@ + enc_votes_list(items@));
    }
}

/// Reads a digest list at `pos`.
pub fn get_digest_list(bytes: &Vec<u8>, pos: usize) -> (r: Option<(Vec<Digest>, usize)>)
    ensures
        r is Some ==> pos <= (r->0).1 <= bytes@.len()
            && bytes@.subrange(pos as int, (r->0).1 as int) == enc_digest_list((r->0).0@),
        forall|s: Seq<Digest>|
            pos + enc_digest_list(s).len() <= bytes@.len()
                && bytes@.subrange(pos as int, pos + enc_digest_list(s).len())
                    == enc_digest_list(s)
                ==> (r is Some && (r->0).0@ == s
                    && (r->0).1 == pos + enc_digest_list(s).len()),
{
    proof {
        lemma_auto_spec_u64_to_from_le_bytes();
        assert forall|s: Seq<Digest>|
            pos + enc_digest_list(s).len() <= bytes@.len()
                && bytes@.subrange(pos as int, pos + enc_digest_list(s).len()) == enc_digest_list(s)
            implies pos + 8 <= bytes@.len() && bytes@.subrange(pos as int, pos + 8)
                == enc_u64(s.len() as u64) && 32 * s.len() <= bytes@.len() by {
            lemma_enc_digest_seq(s);
            assert(bytes@.subrange(pos as int, pos + 8) =~= bytes@.subrange(
                pos as int,
                pos + enc_digest_list(s).len(),
            ).subrange(0, 8));
            assert(enc_digest_list(s).subrange(0, 8) =~= enc_u64(s.len() as u64));
        }
    }
    let (count, mut cur) = match get_u64(bytes, pos) {
        Some(x) => x,
        None => {
            return None;
        },
    };
    if count > (bytes.len() as u64) {
        proof {
            assert forall|s: Seq<Digest>|
                pos + enc_digest_list(s).len() <= bytes@.len()
                    && bytes@.subrange(pos as int, pos + enc_digest_list(s).len())
                        == enc_digest_list(s)
                implies false by {
                lemma_enc_digest_seq(s);
                lemma_enc_u64(s.len() as u64);
            }
        }
        return None;
    }
    let n: usize = count as usize;
    let mut out: Vec<Digest> = Vec::new();
    let mut i: usize = 0;
    proof {
        assert(bytes@.subrange(pos + 8, pos + 8int) =~= enc_digest_seq(out@));
    }
    while i < n
        invariant
            i <= n,
            n == count,
            count <= bytes@.len(),
            pos + 8 <= bytes@.len(),
            out@.len() == i,
            cur == pos + 8 + 32 * i,
            cur <= bytes@.len(),
            bytes@.subrange(pos + 8, cur as int) == enc_digest_seq(out@),
            bytes@.subrange(pos as int, pos + 8) == enc_u64(count),
        decreases n - i,
    {
        let (d, next) = match get_digest(bytes, cur) {
            Some(x) => x,
            None => {
                proof {
                    assert forall|s: Seq<Digest>|
                        pos + enc_digest_list(s).len() <= bytes@.len()
                            && bytes@.subrange(pos as int, pos + enc_digest_list(s).len())
                                == enc_digest_list(s)
                        implies false by {
                        lemma_enc_digest_seq(s);
                        lemma_enc_u64(s.len() as u64);
                        assert(bytes@.subrange(pos as int, pos + 8) =~= bytes@.subrange(
                            pos as int,
                            pos + enc_digest_list(s).len(),
                        ).subrange(0, 8));
                        assert(enc_digest_list(s).subrange(0, 8) =~= enc_u64(s.len() as u64));
                    }
                }
                return None;
            },
        };
        proof {
            assert(out@.push(d).drop_last() =~= out@);
            assert(bytes@.subrange(pos + 8, next as int) =~= enc_digest_seq(out@.push(d)));
        }
        out.push(d);
        cur = next;
        i = i + 1;
    }
    proof {
        assert forall|s: Seq<Digest>|
            pos + enc_digest_list(s).len() <= bytes@.len()
                && bytes@.subrange(pos as int, pos + enc_digest_list(s).len()) == enc_digest_list(s)
            implies out@ == s && cur == pos + enc_digest_list(s).len() by {
            lemma_enc_digest_seq(s);
            lemma_enc_digest_seq(out@);
            lemma_enc_u64(s.len() as u64);
            assert(bytes@.subrange(pos as int, pos + 8) =~= bytes@.subrange(
                pos as int,
                pos + enc_digest_list(s).len(),
            ).subrange(0, 8));
            assert(enc_digest_list(s).subrange(0, 8) =~= enc_u64(s.len() as u64));
            assert(s.len() == count);
            assert(bytes@.subrange(pos + 8, pos + 8 + 32 * s.len() as int) =~= bytes@.subrange(
                pos as int,
                pos + enc_digest_list(s).len(),
            ).subrange(8, 8 + 32 * s.len() as int));
            assert(enc_digest_list(s).subrange(8, 8 + 32 * s.len() as int) =~= enc_digest_seq(s));
            assert(enc_digest_seq(out@) == enc_digest_seq(s));
            assert forall|j: int| 0 <= j < s.len() implies out@[j] == s[j] by {
                assert(enc_digest_seq(out@).subrange(32 * j, 32 * j + 32) == enc_digest(
                    out@[j],
                ));
                assert(enc_digest_seq(s).subrange(32 * j, 32 * j + 32) == enc_digest(s[j]));
                lemma_enc_digest_inj(out@[j], s[j]);
            }
            assert(out@ =~= s);
        }
        assert(bytes@.subrange(pos as int, cur as int) =~= enc_digest_list(out@));
    }
    Some((out, cur))
}

/// Two vote entries with the same encoding are the same entry.
pub proof fn lemma_enc_vote_pair_inj(a: (PublicKey, Signature), b: (PublicKey, Signature))
    requires
        enc_vote_pair(a) == enc_vote_pair(b),
    ensures
        a == b,
{
    lemma_enc_u64(a.0);
    lemma_enc_u64(b.0);
    lemma_enc_u64(a.1.signer);
    lemma_enc_u64(b.1.signer);
    lemma_enc_u64(a.1.content.w0);
    lemma_enc_u64(a.1.content.w1);
    lemma_enc_u64(a.1.content.w2);
    lemma_enc_u64(a.1.content.w3);
    lemma_enc_u64(b.1.content.w0);
    lemma_enc_u64(b.1.content.w1);
    lemma_enc_u64(b.1.content.w2);
    lemma_enc_u64(b.1.content.w3);
    assert(enc_vote_pair(a).subrange(0, 8) =~= enc_u64(a.0));
    assert(enc_vote_pair(b).subrange(0, 8) =~= enc_u64(b.0));
    assert(enc_vote_pair(a).subrange(8, 16) =~= enc_u64(a.1.signer));
    assert(enc_vote_pair(b).subrange(8, 16) =~= enc_u64(b.1.signer));
    assert(enc_vote_pair(a).subrange(16, 48) =~= enc_digest(a.1.content));
    assert(enc_vote_pair(b).subrange(16, 48) =~= enc_digest(b.1.content));
    lemma_enc_digest_inj(a.1.content, b.1.content);
}

/// Reads a vote list at `pos`.
pub fn get_votes_list(bytes: &Vec<u8>, pos: usize) -> (r: Option<
    (Vec<(PublicKey, Signature)>, usize),
>)
    ensures
        r is Some ==> pos <= (r->0).1 <= bytes@.len()
            && bytes@.subrange(pos as int, (r->0).1 as int) == enc_votes_list((r->0).0@),
        forall|s: Seq<(PublicKey, Signature)>|
            pos + enc_votes_list(s).len() <= bytes@.len()
                && bytes@.subrange(pos as int, pos + enc_votes_list(s).len())
                    == enc_votes_list(s)
                ==> (r is Some && (r->0).0@ == s
                    && (r->0).1 == pos + enc_votes_list(s).len()),
{
    proof {
        lemma_auto_spec_u64_to_from_le_bytes();
        assert forall|s: Seq<(PublicKey, Signature)>|
            pos + enc_votes_list(s).len() <= bytes@.len()
                && bytes@.subrange(pos as int, pos + enc_votes_list(s).len()) == enc_votes_list(s)
            implies pos + 8 <= bytes@.len() && bytes@.subrange(pos as int, pos + 8)
                == enc_u64(s.len() as u64) && 48 * s.len() <= bytes@.len() by {
            lemma_enc_votes_seq(s);
            assert(bytes@.subrange(pos as int, pos + 8) =~= bytes@.subrange(
                pos as int,
                pos + enc_votes_list(s).len(),
            ).subrange(0, 8));
            assert(enc_votes_list(s).subrange(0, 8) =~= enc_u64(s.len() as u64));
        }
    }
    let (count, mut cur) = match get_u64(bytes, pos) {
        Some(x) => x,
        None => {
            return None;
        },
    };
    if count > (bytes.len() as u64) {
        proof {
            assert forall|s: Seq<(PublicKey, Signature)>|
                pos + enc_votes_list(s).len() <= bytes@.len()
                    && bytes@.subrange(pos as int, pos + enc_votes_list(s).len())
                        == enc_votes_list(s)
                implies false by {
                lemma_enc_votes_seq(s);
                lemma_enc_u64(s.len() as u64);
            }
        }
        return None;
    }
    let n: usize = count as usize;
    let mut out: Vec<(PublicKey, Signature)> = Vec::new();
    let mut i: usize = 0;
    proof {
        assert(bytes@.subrange(pos + 8, pos + 8int) =~= enc_votes_seq(out@));
    }
    while i < n
        invariant
            i <= n,
            n == count,
            count <= bytes@.len(),
            pos + 8 <= bytes@.len(),
            out@.len() == i,
            cur == pos + 8 + 48 * i,
            cur <= bytes@.len(),
            bytes@.subrange(pos + 8, cur as int) == enc_votes_seq(out@),
            bytes@.subrange(pos as int, pos + 8) == enc_u64(count),
        decreases n - i,
    {
        let kr = get_u64(bytes, cur);
        let k: u64;
        let pk: usize;
        match kr {
            Some(x) => {
                k = x.0;
                pk = x.1;
            },
            None => {
                proof {
                    assert forall|s: Seq<(PublicKey, Signature)>|
                        pos + enc_votes_list(s).len() <= bytes@.len()
                            && bytes@.subrange(pos as int, pos + enc_votes_list(s).len())
                                == enc_votes_list(s)
                        implies false by {
                        lemma_enc_votes_seq(s);
                        lemma_enc_u64(s.len() as u64);
                        assert(bytes@.subrange(pos as int, pos + 8) =~= bytes@.subrange(
                            pos as int,
                            pos + enc_votes_list(s).len(),
                        ).subrange(0, 8));
                        assert(enc_votes_list(s).subrange(0, 8) =~= enc_u64(s.len() as u64));
                        assert(s.len() == count);
                    }
                }
                return None;
            },
        }
        let sr = get_signature(bytes, pk);
        let sig: Signature;
        let next: usize;
        match sr {
            Some(x) => {
                sig = x.0;
                next = x.1;
            },
            None => {
                proof {
                    assert forall|s: Seq<(PublicKey, Signature)>|
                        pos + enc_votes_list(s).len() <= bytes@.len()
                            && bytes@.subrange(pos as int, pos + enc_votes_list(s).len())
                                == enc_votes_list(s)
                        implies false by {
                        lemma_enc_votes_seq(s);
                        lemma_enc_u64(s.len() as u64);
                        assert(bytes@.subrange(pos as int, pos + 8) =~= bytes@.subrange(
                            pos as int,
                            pos + enc_votes_list(s).len(),
                        ).subrange(0, 8));
                        assert(enc_votes_list(s).subrange(0, 8) =~= enc_u64(s.len() as u64));
                        assert(s.len() == count);
                    }
                }
                return None;
            },
        }
        proof {
            assert(out@.push((k, sig)).drop_last() =~= out@);
            assert(bytes@.subrange(cur as int, next as int) =~= enc_vote_pair((k, sig)));
            assert(bytes@.subrange(pos + 8, next as int) =~= enc_votes_seq(out@.push((k, sig))));
        }
        out.push((k, sig));
        cur = next;
        i = i + 1;
    }
    proof {
        assert forall|s: Seq<(PublicKey, Signature)>|
            pos + enc_votes_list(s).len() <= bytes@.len()
                && bytes@.subrange(pos as int, pos + enc_votes_list(s).len()) == enc_votes_list(s)
            implies out@ == s && cur == pos + enc_votes_list(s).len() by {
            lemma_enc_votes_seq(s);
            lemma_enc_votes_seq(out@);
            lemma_enc_u64(s.len() as u64);
            assert(bytes@.subrange(pos as int, pos + 8) =~= bytes@.subrange(
                pos as int,
                pos + enc_votes_list(s).len(),
            ).subrange(0, 8));
            assert(enc_votes_list(s).subrange(0, 8) =~= enc_u64(s.len() as u64));
            assert(s.len() == count);
            assert(bytes@.subrange(pos + 8, pos + 8 + 48 * s.len() as int) =~= bytes@.subrange(
                pos as int,
                pos + enc_votes_list(s).len(),
            ).subrange(8, 8 + 48 * s.len() as int));
            assert(enc_votes_list(s).subrange(8, 8 + 48 * s.len() as int) =~= enc_votes_seq(s));
            assert(enc_votes_seq(out@) == enc_votes_seq(s));
            assert forall|j: int| 0 <= j < s.len() implies out@[j] == s[j] by {
                assert(enc_votes_seq(out@).subrange(48 * j, 48 * j + 48) == enc_vote_pair(
                    out@[j],
                ));
                assert(enc_votes_seq(s).subrange(48 * j, 48 * j + 48) == enc_vote_pair(s[j]));
                lemma_enc_vote_pair_inj(out@[j], s[j]);
            }
            assert(out@ =~= s);
        }
        assert(bytes@.subrange(pos as int, cur as int) =~= enc_votes_list(out@));
    }
    Some((out, cur))
}

/// Two digests with the same encoding are the same digest.
pub proof fn lemma_enc_digest_inj(a: Digest, b: Digest)
    requires
        enc_digest(a) == enc_digest(b),
    ensures
        a == b,
{
    lemma_enc_u64(a.w0);
    lemma_enc_u64(a.w1);
    lemma_enc_u64(a.w2);
    lemma_enc_u64(a.w3);
    lemma_enc_u64(b.w0);
    lemma_enc_u64(b.w1);
    lemma_enc_u64(b.w2);
    lemma_enc_u64(b.w3);
    assert(enc_digest(a).subrange(0, 8) =~= enc_u64(a.w0));
    assert(enc_digest(b).subrange(0, 8) =~= enc_u64(b.w0));
    assert(enc_digest(a).subrange(8, 16) =~= enc_u64(a.w1));
    assert(enc_digest(b).subrange(8, 16) =~= enc_u64(b.w1));
    assert(enc_digest(a).subrange(16, 24) =~= enc_u64(a.w2));
    assert(enc_digest(b).subrange(16, 24) =~= enc_u64(b.w2));
    assert(enc_digest(a).subrange(24, 32) =~= enc_u64(a.w3));
    assert(enc_digest(b).subrange(24, 32) =~= enc_u64(b.w3));
}

} // verus!
