//! Transactions: a signed payload addressed to a 32-byte recipient
//! identity, content-addressed by the digest of its canonical encoding.

use vstd::prelude::*;
use crate::codec::{
    spec_enc_bytes, spec_parse_bytes, spec_parse_fixed, lemma_parse_bytes_round_trip,
    lemma_parse_fixed_round_trip, lemma_parse_bytes_canonical, write_bytes, parse_bytes,
    parse_fixed,
};
use crate::crypto::{
    spec_blake2b, spec_sig_valid, blake2b, ed25519_sign, signature_valid, Keypair,
};

verus! {

/// The signed payload of a transaction.
pub struct TxBody {
    /// The 32-byte identity the transaction is addressed to.
    pub recipient: Vec<u8>,
    /// Arbitrary payload bytes.
    pub data: Vec<u8>,
}

/// A signed transaction: body, the digest of the signer's public key, and
/// the signature over the canonical encoding of body and signer identity.
pub struct Transaction {
    pub body: TxBody,
    pub proposer_pub: Vec<u8>,
    pub signature: Vec<u8>,
}

/// The mathematical content of a transaction.
pub struct TxView {
    pub recipient: Seq<u8>,
    pub data: Seq<u8>,
    pub proposer_pub: Seq<u8>,
    pub signature: Seq<u8>,
}

impl View for Transaction {
    type V = TxView;

    open spec fn view(&self) -> TxView {
        TxView {
            recipient: self.body.recipient@,
            data: self.body.data@,
            proposer_pub: self.proposer_pub@,
            signature: self.signature@,
        }
    }
}

/// Structural well-formedness: the fixed-width fields have the profile's
/// lengths.
pub open spec fn spec_tx_wf(v: TxView) -> bool {
    &&& v.recipient.len() == 32
    &&& v.proposer_pub.len() == 32
    &&& v.signature.len() == 64
}

/// The canonical encoding of body and signer identity: what is hashed and
/// what is signed.
pub open spec fn spec_tx_content(v: TxView) -> Seq<u8> {
    v.recipient + spec_enc_bytes(v.data) + v.proposer_pub
}

/// A transaction's hash: the digest of its canonical content.
pub open spec fn spec_tx_hash(v: TxView) -> Seq<u8> {
    spec_blake2b(spec_tx_content(v))
}

/// The full canonical encoding, signature included.
pub open spec fn spec_enc_tx(v: TxView) -> Seq<u8> {
    spec_tx_content(v) + spec_enc_bytes(v.signature)
}

/// A transaction is valid under a public key when it is well formed, the
/// key hashes to the carried signer identity, and the signature verifies
/// over the canonical content.
pub open spec fn spec_tx_valid(v: TxView, pk: Seq<u8>) -> bool {
    &&& spec_tx_wf(v)
    &&& spec_blake2b(pk) == v.proposer_pub
    &&& spec_sig_valid(pk, spec_tx_content(v), v.signature)
}

/// Parse a transaction from the front of `s`: recipient, length-prefixed
/// data, signer identity, length-prefixed signature.
pub open spec fn spec_parse_tx(s: Seq<u8>) -> Option<(TxView, int)> {
    match spec_parse_fixed(s, 32) {
        None => None,
        Some((recipient, n1)) => match spec_parse_bytes(s.skip(n1)) {
            None => None,
            Some((data, n2)) => match spec_parse_fixed(s.skip(n1 + n2), 32) {
                None => None,
                Some((proposer_pub, n3)) => match spec_parse_bytes(s.skip(n1 + n2 + n3)) {
                    None => None,
                    Some((signature, n4)) => if signature.len() == 64 {
                        Some(
                            (
                                TxView { recipient, data, proposer_pub, signature },
                                n1 + n2 + n3 + n4,
                            ),
                        )
                    } else {
                        None
                    },
                },
            },
        },
    }
}

/// The canonical encoding of a well-formed transaction parses back to the
/// same transaction, whatever follows it.
pub proof fn lemma_tx_round_trip(v: TxView, rest: Seq<u8>)
    requires
        spec_tx_wf(v),
        v.data.len() <= u64::MAX,
    ensures
        spec_parse_tx(spec_enc_tx(v) + rest) == Some((v, spec_enc_tx(v).len() as int)),
{
    let s = spec_enc_tx(v) + rest;
    let tail1 = spec_enc_bytes(v.data) + v.proposer_pub + spec_enc_bytes(v.signature) + rest;
    assert(s =~= v.recipient + tail1);
    lemma_parse_fixed_round_trip(v.recipient, tail1);
    assert(spec_parse_fixed(s, 32) == Some((v.recipient, 32int)));
    assert(s.skip(32) =~= tail1);
    let tail2 = v.proposer_pub + spec_enc_bytes(v.signature) + rest;
    assert(tail1 =~= spec_enc_bytes(v.data) + tail2);
    lemma_parse_bytes_round_trip(v.data, tail2);
    let n2 = 8 + v.data.len() as int;
    assert(spec_parse_bytes(s.skip(32)) == Some((v.data, n2)));
    assert(s.skip(32 + n2) =~= tail2);
    let tail3 = spec_enc_bytes(v.signature) + rest;
    assert(tail2 =~= v.proposer_pub + tail3);
    lemma_parse_fixed_round_trip(v.proposer_pub, tail3);
    assert(spec_parse_fixed(s.skip(32 + n2), 32) == Some((v.proposer_pub, 32int)));
    assert(s.skip(32 + n2 + 32) =~= tail3);
    lemma_parse_bytes_round_trip(v.signature, rest);
    assert(spec_parse_bytes(s.skip(32 + n2 + 32)) == Some((v.signature, 8int + 64)));
    assert(spec_enc_tx(v).len() == 32 + n2 + 32 + 72);
}

/// A successful parse consumed exactly the canonical encoding of the
/// transaction it returned: nothing else decodes to it.
pub proof fn lemma_parse_tx_canonical(s: Seq<u8>)
    requires
        spec_parse_tx(s) is Some,
    ensures
        spec_parse_tx(s) matches Some(p) && spec_enc_tx(p.0) == s.take(p.1),
{
    let (v, n) = spec_parse_tx(s)->Some_0;
    let (data, n2) = spec_parse_bytes(s.skip(32))->Some_0;
    assert(v.recipient == s.subrange(0, 32));
    lemma_parse_bytes_canonical(s.skip(32));
    assert(spec_enc_bytes(v.data) == s.skip(32).take(n2));
    assert(v.proposer_pub == s.skip(32 + n2).subrange(0, 32));
    lemma_parse_bytes_canonical(s.skip(64 + n2));
    let n4 = spec_parse_bytes(s.skip(64 + n2))->Some_0.1;
    assert(spec_enc_bytes(v.signature) == s.skip(64 + n2).take(n4));
    assert(spec_enc_tx(v) =~= s.take(n));
}

/// The hash is stable: it depends on the transaction's content alone.
pub proof fn lemma_tx_hash_stable(t1: TxView, t2: TxView)
    requires
        t1 == t2,
    ensures
        spec_tx_hash(t1) == spec_tx_hash(t2),
{
}

impl TxBody {
    /// Build a payload for a 32-byte recipient identity.
    pub fn new(recipient: Vec<u8>, data: Vec<u8>) -> (r: TxBody)
        requires
            recipient@.len() == 32,
        ensures
            r.recipient@ == recipient@,
            r.data@ == data@,
    {
        TxBody { recipient, data }
    }
}

impl Transaction {
    /// Build and sign a transaction with the given key.
    pub fn new(body: TxBody, keys: &Keypair) -> (r: Transaction)
        requires
            keys.wf(),
            body.recipient@.len() == 32,
        ensures
            spec_tx_valid(r@, keys.pk@),
            r@.recipient == body.recipient@,
            r@.data == body.data@,
            r@.proposer_pub == keys.pk_hash@,
    {
        let mut content = body.recipient.clone();
        write_bytes(&mut content, &body.data);
        content.extend_from_slice(keys.pk_hash.as_slice());
        let signature = ed25519_sign(&keys.sk, &content);
        let r = Transaction { body, proposer_pub: keys.pk_hash.clone(), signature };
        proof {
            assert(content@ =~= spec_tx_content(r@));
        }
        r
    }

    /// The transaction's hash: the digest of its canonical content.
    pub fn hash(&self) -> (r: Vec<u8>)
        ensures
            r@ == spec_tx_hash(self@),
            r@.len() == 32,
    {
        let mut content = self.body.recipient.clone();
        write_bytes(&mut content, &self.body.data);
        content.extend_from_slice(self.proposer_pub.as_slice());
        assert(content@ =~= spec_tx_content(self@));
        blake2b(&content)
    }

    /// The length of the canonical encoding, the measure the mempool's
    /// byte-size limiter sums.
    pub fn len(&self) -> (r: usize)
        ensures
            r == spec_enc_tx(self@).len(),
    {
        let enc = encode_transaction(self);
        enc.len()
    }

    /// Decide validity under the signer's public key.
    pub fn verify(&self, pk: &Vec<u8>) -> (r: bool)
        ensures
            r == spec_tx_valid(self@, pk@),
    {
        if self.body.recipient.len() != 32 || self.proposer_pub.len() != 32
            || self.signature.len() != 64 {
            return false;
        }
        let pk_hash = blake2b(pk);
        if !crate::bytes::bytes_eq(&pk_hash, &self.proposer_pub) {
            return false;
        }
        let mut content = self.body.recipient.clone();
        write_bytes(&mut content, &self.body.data);
        content.extend_from_slice(self.proposer_pub.as_slice());
        assert(content@ =~= spec_tx_content(self@));
        signature_valid(pk, &content, &self.signature)
    }
}

/// Copy a transaction, field by field.
pub fn duplicate_transaction(t: &Transaction) -> (r: Transaction)
    ensures
        r@ == t@,
{
    Transaction {
        body: TxBody { recipient: t.body.recipient.clone(), data: t.body.data.clone() },
        proposer_pub: t.proposer_pub.clone(),
        signature: t.signature.clone(),
    }
}

/// Render a transaction in the canonical encoding.
pub fn encode_transaction(t: &Transaction) -> (r: Vec<u8>)
    ensures
        r@ == spec_enc_tx(t@),
{
    let mut out = t.body.recipient.clone();
    write_bytes(&mut out, &t.body.data);
    out.extend_from_slice(t.proposer_pub.as_slice());
    write_bytes(&mut out, &t.signature);
    assert(out@ =~= spec_enc_tx(t@));
    out
}

/// Parse a transaction at position `pos`; on success the transaction and
/// the position after it.
pub fn parse_transaction(s: &Vec<u8>, pos: usize) -> (r: Option<(Transaction, usize)>)
    requires
        pos <= s@.len(),
    ensures
        match r {
            Some(p) => {
                &&& spec_parse_tx(s@.skip(pos as int)) == Some((p.0@, p.1 - pos as int))
                &&& spec_tx_wf(p.0@)
                &&& pos <= p.1 <= s@.len()
            },
            None => spec_parse_tx(s@.skip(pos as int)) is None,
        },
{
    let ghost u = s@.skip(pos as int);
    let (recipient, pos1) = match parse_fixed(s, pos, 32) {
        Some(p) => p,
        None => {
            return None;
        },
    };
    assert(s@.skip(pos1 as int) =~= u.skip(pos1 - pos as int));
    let (data, pos2) = match parse_bytes(s, pos1) {
        Some(p) => p,
        None => {
            return None;
        },
    };
    assert(s@.skip(pos2 as int) =~= u.skip(pos2 - pos as int));
    let (proposer_pub, pos3) = match parse_fixed(s, pos2, 32) {
        Some(p) => p,
        None => {
            return None;
        },
    };
    assert(s@.skip(pos3 as int) =~= u.skip(pos3 - pos as int));
    let (signature, pos4) = match parse_bytes(s, pos3) {
        Some(p) => p,
        None => {
            return None;
        },
    };
    if signature.len() != 64 {
        return None;
    }
    let t = Transaction { body: TxBody { recipient, data }, proposer_pub, signature };
    Some((t, pos4))
}

/// Decode a complete canonical encoding: succeeds only when the whole
/// input is consumed.
pub fn decode_transaction(s: &Vec<u8>) -> (r: Option<Transaction>)
    ensures
        match r {
            Some(t) => {
                &&& spec_parse_tx(s@) == Some((t@, s@.len() as int))
                &&& spec_tx_wf(t@)
                &&& spec_enc_tx(t@) == s@
            },
            None => spec_parse_tx(s@) is None || (spec_parse_tx(s@) matches Some(p) && p.1
                != s@.len()),
        },
{
    assert(s@.skip(0) =~= s@);
    match parse_transaction(s, 0) {
        Some((t, n)) => {
            if n == s.len() {
                proof {
                    lemma_parse_tx_canonical(s@);
                    assert(s@.take(s@.len() as int) =~= s@);
                }
                Some(t)
            } else {
                None
            }
        },
        None => None,
    }
}

/// Decoding the canonical encoding of a transaction gives the transaction
/// back.
pub proof fn lemma_decode_of_encode_tx(v: TxView)
    requires
        spec_tx_wf(v),
        v.data.len() <= u64::MAX,
    ensures
        spec_parse_tx(spec_enc_tx(v)) == Some((v, spec_enc_tx(v).len() as int)),
{
    lemma_tx_round_trip(v, Seq::empty());
    assert(spec_enc_tx(v) + Seq::<u8>::empty() =~= spec_enc_tx(v));
}

} // verus!
