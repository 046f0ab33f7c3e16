//! Blocks: a Merkle-rooted header over an ordered list of transaction
//! hashes, content-addressed and signed by its proposer.

use vstd::prelude::*;
use crate::bytes::{spec_u64_le, spec_le_u64, write_u64_le};
use crate::codec::{
    spec_enc_bytes, spec_parse_bytes, spec_parse_fixed, lemma_parse_bytes_round_trip,
    lemma_parse_fixed_round_trip, lemma_le_u64_of_enc, lemma_u64_le_bytes_round_trip,
    lemma_parse_bytes_canonical, write_bytes, parse_bytes, parse_fixed, parse_u64,
};
use crate::crypto::{
    spec_blake2b, spec_sig_valid, blake2b, ed25519_sign, signature_valid, Keypair,
};
use crate::merkle::{spec_merkle_root, leaf_views, leaves_wf, merkle_root};

verus! {

/// The hashed header content of a block.
pub struct BlockData {
    /// The parent block's hash, rendered in lower-case hexadecimal.
    pub prev_hash: Vec<u8>,
    /// The hashes of the transactions the block commits, in consensus
    /// order: sorted lexicographically.
    pub txes: Vec<Vec<u8>>,
    /// The root of the hash tree over `txes`.
    pub merkle_root: Vec<u8>,
    /// The block's height: one above its parent, zero for genesis.
    pub height: u64,
    /// Proposal time, seconds.
    pub timestamp: u64,
}

/// The header content together with its digest.
pub struct HashedBlock {
    pub data: BlockData,
    pub hash: Vec<u8>,
}

/// A block: hashed header, proposer identity, signature.
pub struct Block {
    pub hashed: HashedBlock,
    pub proposer_pub: Vec<u8>,
    pub signature: Vec<u8>,
}

/// The mathematical content of a block.
pub struct BlockView {
    pub prev_hash: Seq<u8>,
    pub txes: Seq<Seq<u8>>,
    pub merkle_root: Seq<u8>,
    pub height: u64,
    pub timestamp: u64,
    pub hash: Seq<u8>,
    pub proposer_pub: Seq<u8>,
    pub signature: Seq<u8>,
}

impl View for Block {
    type V = BlockView;

    open spec fn view(&self) -> BlockView {
        BlockView {
            prev_hash: self.hashed.data.prev_hash@,
            txes: leaf_views(self.hashed.data.txes@),
            merkle_root: self.hashed.data.merkle_root@,
            height: self.hashed.data.height,
            timestamp: self.hashed.data.timestamp,
            hash: self.hashed.hash@,
            proposer_pub: self.proposer_pub@,
            signature: self.signature@,
        }
    }
}

/// Structural well-formedness of a block's fields.
pub open spec fn spec_block_wf(v: BlockView) -> bool {
    &&& v.prev_hash.len() == 64
    &&& v.merkle_root.len() == 32
    &&& v.hash.len() == 32
    &&& v.proposer_pub.len() == 32
    &&& v.signature.len() == 64
    &&& forall|i: int| 0 <= i < v.txes.len() ==> (#[trigger] v.txes[i]).len() == 32
    &&& v.txes.len() <= u64::MAX
}

/// All the transaction hashes, concatenated in order.
pub open spec fn spec_concat_hashes(ts: Seq<Seq<u8>>) -> Seq<u8>
    decreases ts.len(),
{
    if ts.len() == 0 {
        Seq::empty()
    } else {
        ts[0] + spec_concat_hashes(ts.skip(1))
    }
}

/// Appending one hash appends its bytes.
pub proof fn lemma_concat_hashes_push(ts: Seq<Seq<u8>>, x: Seq<u8>)
    ensures
        spec_concat_hashes(ts.push(x)) == spec_concat_hashes(ts) + x,
    decreases ts.len(),
{
    if ts.len() == 0 {
        assert(ts.push(x).skip(1) =~= Seq::<Seq<u8>>::empty());
        assert(ts.push(x)[0] == x);
        assert(spec_concat_hashes(ts.push(x)) == x + spec_concat_hashes(
            Seq::<Seq<u8>>::empty(),
        ));
        assert(spec_concat_hashes(ts.push(x)) =~= spec_concat_hashes(ts) + x);
    } else {
        lemma_concat_hashes_push(ts.skip(1), x);
        assert(ts.push(x).skip(1) =~= ts.skip(1).push(x));
        assert(ts.push(x)[0] == ts[0]);
        assert(spec_concat_hashes(ts.push(x)) == ts[0] + spec_concat_hashes(ts.skip(1).push(x)));
        assert(spec_concat_hashes(ts.push(x)) =~= spec_concat_hashes(ts) + x);
    }
}

/// The canonical encoding of the hashed header content: what the block
/// hash digests and what the proposer signs.
pub open spec fn spec_enc_block_data(v: BlockView) -> Seq<u8> {
    v.prev_hash + spec_u64_le(v.txes.len() as u64) + spec_concat_hashes(v.txes) + v.merkle_root
        + spec_u64_le(v.height) + spec_u64_le(v.timestamp)
}

/// The full canonical encoding of a block.
pub open spec fn spec_enc_block(v: BlockView) -> Seq<u8> {
    spec_enc_block_data(v) + v.hash + v.proposer_pub + spec_enc_bytes(v.signature)
}

/// A block is valid under a proposer public key when it is well formed and
/// non-empty, its hash is the digest of its canonical header encoding, its
/// Merkle root is the root over its transaction hashes, the key hashes to
/// the carried proposer identity, and the signature verifies over the
/// canonical header encoding.
pub open spec fn spec_block_valid(v: BlockView, pk: Seq<u8>) -> bool {
    &&& spec_block_wf(v)
    &&& v.txes.len() > 0
    &&& v.hash == spec_blake2b(spec_enc_block_data(v))
    &&& v.merkle_root == spec_merkle_root(v.txes)
    &&& spec_blake2b(pk) == v.proposer_pub
    &&& spec_sig_valid(pk, spec_enc_block_data(v), v.signature)
}

/// Valid blocks carry the digest of their canonical header and the Merkle
/// root of their transaction hashes.
pub proof fn lemma_block_integrity(v: BlockView, pk: Seq<u8>)
    requires
        spec_block_valid(v, pk),
    ensures
        v.hash == spec_blake2b(spec_enc_block_data(v)),
        v.merkle_root == spec_merkle_root(v.txes),
{
}

/// Parse an 8-byte little-endian integer from the front of `s`.
pub open spec fn spec_parse_u64f(s: Seq<u8>) -> Option<(u64, int)> {
    if s.len() >= 8 {
        Some((spec_le_u64(s), 8int))
    } else {
        None
    }
}

/// Parse `n` 32-byte hashes from the front of `s`.
pub open spec fn spec_parse_hashes(s: Seq<u8>, n: int) -> Option<(Seq<Seq<u8>>, int)>
    decreases n,
{
    if n <= 0 {
        Some((Seq::empty(), 0))
    } else if s.len() < 32 {
        None
    } else {
        match spec_parse_hashes(s.skip(32), n - 1) {
            None => None,
            Some((rest, used)) => Some((seq![s.subrange(0, 32)] + rest, 32 + used)),
        }
    }
}

/// A concatenation of 32-byte hashes parses back to the list, whatever
/// follows it.
pub proof fn lemma_parse_hashes_round_trip(ts: Seq<Seq<u8>>, rest: Seq<u8>)
    requires
        forall|i: int| 0 <= i < ts.len() ==> (#[trigger] ts[i]).len() == 32,
    ensures
        spec_parse_hashes(spec_concat_hashes(ts) + rest, ts.len() as int) == Some(
            (ts, 32 * ts.len() as int),
        ),
    decreases ts.len(),
{
    if ts.len() == 0 {
        assert(spec_concat_hashes(ts) + rest =~= rest);
        assert(ts =~= Seq::<Seq<u8>>::empty());
    } else {
        let s = spec_concat_hashes(ts) + rest;
        let tail = spec_concat_hashes(ts.skip(1)) + rest;
        assert(s =~= ts[0] + tail);
        assert(s.len() >= 32);
        assert(s.subrange(0, 32) =~= ts[0]);
        assert(s.skip(32) =~= tail);
        lemma_parse_hashes_round_trip(ts.skip(1), rest);
        assert(seq![ts[0]] + ts.skip(1) =~= ts);
    }
}

/// Parse a block from the front of `s`: parent hash, transaction count and
/// hashes, Merkle root, height, timestamp, block hash, proposer identity,
/// length-prefixed signature.
pub open spec fn spec_parse_block(s: Seq<u8>) -> Option<(BlockView, int)> {
    match spec_parse_fixed(s, 64) {
        None => None,
        Some((prev_hash, m1)) => match spec_parse_u64f(s.skip(m1)) {
            None => None,
            Some((count, m2)) => match spec_parse_hashes(s.skip(m1 + m2), count as int) {
                None => None,
                Some((txes, m3)) => match spec_parse_fixed(s.skip(m1 + m2 + m3), 32) {
                    None => None,
                    Some((merkle_rt, m4)) => match spec_parse_u64f(s.skip(m1 + m2 + m3 + m4)) {
                        None => None,
                        Some((height, m5)) => match spec_parse_u64f(
                            s.skip(m1 + m2 + m3 + m4 + m5),
                        ) {
                            None => None,
                            Some((timestamp, m6)) => match spec_parse_fixed(
                                s.skip(m1 + m2 + m3 + m4 + m5 + m6),
                                32,
                            ) {
                                None => None,
                                Some((hash, m7)) => match spec_parse_fixed(
                                    s.skip(m1 + m2 + m3 + m4 + m5 + m6 + m7),
                                    32,
                                ) {
                                    None => None,
                                    Some((proposer_pub, m8)) => match spec_parse_bytes(
                                        s.skip(m1 + m2 + m3 + m4 + m5 + m6 + m7 + m8),
                                    ) {
                                        None => None,
                                        Some((signature, m9)) => if signature.len() == 64 {
                                            Some(
                                                (
                                                    BlockView {
                                                        prev_hash,
                                                        txes,
                                                        merkle_root: merkle_rt,
                                                        height,
                                                        timestamp,
                                                        hash,
                                                        proposer_pub,
                                                        signature,
                                                    },
                                                    m1 + m2 + m3 + m4 + m5 + m6 + m7 + m8 + m9,
                                                ),
                                            )
                                        } else {
                                            None
                                        },
                                    },
                                },
                            },
                        },
                    },
                },
            },
        },
    }
}

/// The canonical encoding of a well-formed block parses back to the same
/// block, whatever follows it.
#[verifier::rlimit(100)]
pub proof fn lemma_block_round_trip(v: BlockView, rest: Seq<u8>)
    requires
        spec_block_wf(v),
    ensures
        spec_parse_block(spec_enc_block(v) + rest) == Some((v, spec_enc_block(v).len() as int)),
{
    let s = spec_enc_block(v) + rest;
    let cnt = spec_u64_le(v.txes.len() as u64);
    let cat = spec_concat_hashes(v.txes);
    let m3 = 32 * v.txes.len() as int;
    lemma_concat_hashes_len(v.txes);
    let t8 = spec_enc_bytes(v.signature) + rest;
    let t7 = v.proposer_pub + t8;
    let t6 = v.hash + t7;
    let t5 = spec_u64_le(v.timestamp) + t6;
    let t4 = spec_u64_le(v.height) + t5;
    let t3 = v.merkle_root + t4;
    let t2 = cat + t3;
    let t1 = cnt + t2;
    assert(s == v.prev_hash + t1) by {
        assert(s =~= v.prev_hash + t1);
    }
    assert(spec_parse_fixed(s, 64) == Some((v.prev_hash, 64int))) by {
        lemma_parse_fixed_round_trip(v.prev_hash, t1);
    }
    assert(s.skip(64) == t1) by {
        assert(s.skip(64) =~= t1);
    }
    assert(spec_parse_u64f(t1) == Some((v.txes.len() as u64, 8int))) by {
        lemma_le_u64_of_enc(v.txes.len() as u64, t2);
    }
    assert(s.skip(72) == t2) by {
        assert(s.skip(72) =~= t1.skip(8));
        assert(t1.skip(8) =~= t2);
    }
    assert(spec_parse_hashes(t2, v.txes.len() as int) == Some((v.txes, m3))) by {
        lemma_parse_hashes_round_trip(v.txes, t3);
    }
    assert(s.skip(72 + m3) == t3) by {
        assert(s.skip(72 + m3) =~= t2.skip(m3));
        assert(t2.skip(m3) =~= t3);
    }
    assert(spec_parse_fixed(t3, 32) == Some((v.merkle_root, 32int))) by {
        lemma_parse_fixed_round_trip(v.merkle_root, t4);
    }
    assert(s.skip(104 + m3) == t4) by {
        assert(s.skip(104 + m3) =~= t3.skip(32));
        assert(t3.skip(32) =~= t4);
    }
    assert(spec_parse_u64f(t4) == Some((v.height, 8int))) by {
        lemma_le_u64_of_enc(v.height, t5);
    }
    assert(s.skip(112 + m3) == t5) by {
        assert(s.skip(112 + m3) =~= t4.skip(8));
        assert(t4.skip(8) =~= t5);
    }
    assert(spec_parse_u64f(t5) == Some((v.timestamp, 8int))) by {
        lemma_le_u64_of_enc(v.timestamp, t6);
    }
    assert(s.skip(120 + m3) == t6) by {
        assert(s.skip(120 + m3) =~= t5.skip(8));
        assert(t5.skip(8) =~= t6);
    }
    assert(spec_parse_fixed(t6, 32) == Some((v.hash, 32int))) by {
        lemma_parse_fixed_round_trip(v.hash, t7);
    }
    assert(s.skip(152 + m3) == t7) by {
        assert(s.skip(152 + m3) =~= t6.skip(32));
        assert(t6.skip(32) =~= t7);
    }
    assert(spec_parse_fixed(t7, 32) == Some((v.proposer_pub, 32int))) by {
        lemma_parse_fixed_round_trip(v.proposer_pub, t8);
    }
    assert(s.skip(184 + m3) == t8) by {
        assert(s.skip(184 + m3) =~= t7.skip(32));
        assert(t7.skip(32) =~= t8);
    }
    assert(spec_parse_bytes(t8) == Some((v.signature, 72int))) by {
        lemma_parse_bytes_round_trip(v.signature, rest);
    }
    assert(spec_enc_block(v).len() == 256 + m3);
    assert(spec_parse_block(s) == Some((v, 256 + m3)));
}

/// A successful hash-list parse consumed exactly the concatenation of the
/// hashes it returned, 32 bytes each.
pub proof fn lemma_parse_hashes_canonical(s: Seq<u8>, n: int)
    requires
        spec_parse_hashes(s, n) is Some,
    ensures
        spec_parse_hashes(s, n) matches Some(p) && spec_concat_hashes(p.0) == s.take(p.1)
            && p.0.len() == (if n >= 0 { n } else { 0 }) && p.1 == 32 * p.0.len() && 0 <= p.1
            <= s.len(),
    decreases n,
{
    if n <= 0 {
        let (ts, used) = spec_parse_hashes(s, n)->Some_0;
        assert(spec_concat_hashes(ts) =~= s.take(0));
    } else {
        let (ts, used) = spec_parse_hashes(s, n)->Some_0;
        lemma_parse_hashes_canonical(s.skip(32), n - 1);
        let (rest, used2) = spec_parse_hashes(s.skip(32), n - 1)->Some_0;
        assert(ts[0] == s.subrange(0, 32));
        assert(ts.skip(1) =~= rest);
        assert(ts.len() > 0);
        assert(spec_concat_hashes(ts) == ts[0] + spec_concat_hashes(ts.skip(1)));
        assert(spec_concat_hashes(rest) == s.skip(32).take(used2));
        assert(used == 32 + used2);
        assert(spec_concat_hashes(ts) =~= s.take(used));
    }
}

/// A successful block parse consumed exactly the canonical encoding of the
/// block it returned: nothing else decodes to it.
#[verifier::rlimit(100)]
pub proof fn lemma_parse_block_canonical(s: Seq<u8>)
    requires
        spec_parse_block(s) is Some,
    ensures
        spec_parse_block(s) matches Some(p) && spec_enc_block(p.0) == s.take(p.1),
{
    let (v, n) = spec_parse_block(s)->Some_0;
    let count = spec_parse_u64f(s.skip(64))->Some_0.0;
    let m3 = spec_parse_hashes(s.skip(72), count as int)->Some_0.1;
    let m9 = spec_parse_bytes(s.skip(184 + m3))->Some_0.1;
    assert(v.prev_hash == s.subrange(0, 64));
    lemma_parse_hashes_canonical(s.skip(72), count as int);
    assert(v.txes.len() == count);
    assert(spec_u64_le(v.txes.len() as u64) == s.skip(64).take(8)) by {
        lemma_u64_le_bytes_round_trip(s.skip(64));
    }
    assert(spec_concat_hashes(v.txes) == s.skip(72).take(m3));
    assert(m3 <= s.skip(72).len());
    assert(v.merkle_root == s.skip(72 + m3).subrange(0, 32));
    assert(spec_u64_le(v.height) == s.skip(104 + m3).take(8)) by {
        lemma_u64_le_bytes_round_trip(s.skip(104 + m3));
    }
    assert(spec_u64_le(v.timestamp) == s.skip(112 + m3).take(8)) by {
        lemma_u64_le_bytes_round_trip(s.skip(112 + m3));
    }
    assert(v.hash == s.skip(120 + m3).subrange(0, 32));
    assert(v.proposer_pub == s.skip(152 + m3).subrange(0, 32));
    assert(spec_enc_bytes(v.signature) == s.skip(184 + m3).take(m9)) by {
        lemma_parse_bytes_canonical(s.skip(184 + m3));
    }
    assert(n == 184 + m3 + m9);
    assert(spec_concat_hashes(v.txes).len() == m3);
    assert(spec_enc_block_data(v) =~= s.take(120 + m3));
    assert(spec_enc_block(v) =~= s.take(n));
}

/// The concatenation of `n` 32-byte hashes is `32 * n` bytes long.
pub proof fn lemma_concat_hashes_len(ts: Seq<Seq<u8>>)
    requires
        forall|i: int| 0 <= i < ts.len() ==> (#[trigger] ts[i]).len() == 32,
    ensures
        spec_concat_hashes(ts).len() == 32 * ts.len(),
    decreases ts.len(),
{
    if ts.len() > 0 {
        lemma_concat_hashes_len(ts.skip(1));
    }
}

/// Render the hashed header content in the canonical encoding.
pub fn block_data_bytes(b: &Block) -> (r: Vec<u8>)
    ensures
        r@ == spec_enc_block_data(b@),
{
    encode_block_data(
        &b.hashed.data.prev_hash,
        &b.hashed.data.txes,
        &b.hashed.data.merkle_root,
        b.hashed.data.height,
        b.hashed.data.timestamp,
    )
}

/// Render header fields in the canonical encoding.
fn encode_block_data(
    prev_hash: &Vec<u8>,
    txes: &Vec<Vec<u8>>,
    merkle_rt: &Vec<u8>,
    height: u64,
    timestamp: u64,
) -> (r: Vec<u8>)
    ensures
        r@ == spec_enc_block_data(
            BlockView {
                prev_hash: prev_hash@,
                txes: leaf_views(txes@),
                merkle_root: merkle_rt@,
                height,
                timestamp,
                hash: Seq::empty(),
                proposer_pub: Seq::empty(),
                signature: Seq::empty(),
            },
        ),
{
    let mut out = prev_hash.clone();
    let n = txes.len();
    write_u64_le(&mut out, n as u64);
    let ghost base = out@;
    let mut i: usize = 0;
    while i < n
        invariant
            n == txes@.len(),
            0 <= i <= n,
            out@ == base + spec_concat_hashes(leaf_views(txes@.take(i as int))),
        decreases n - i,
    {
        out.extend_from_slice(txes[i].as_slice());
        proof {
            let pre = leaf_views(txes@.take(i as int));
            let post = leaf_views(txes@.take(i as int + 1));
            assert(post =~= pre.push(txes@[i as int]@));
            lemma_concat_hashes_push(pre, txes@[i as int]@);
            assert(out@ =~= base + spec_concat_hashes(post));
        }
        i += 1;
    }
    proof {
        assert(leaf_views(txes@.take(n as int)) =~= leaf_views(txes@));
    }
    out.extend_from_slice(merkle_rt.as_slice());
    write_u64_le(&mut out, height);
    write_u64_le(&mut out, timestamp);
    proof {
        assert(leaf_views(txes@).len() == txes@.len());
        assert(out@ =~= spec_enc_block_data(
            BlockView {
                prev_hash: prev_hash@,
                txes: leaf_views(txes@),
                merkle_root: merkle_rt@,
                height,
                timestamp,
                hash: Seq::empty(),
                proposer_pub: Seq::empty(),
                signature: Seq::empty(),
            },
        ));
    }
    out
}

impl Block {
    /// Assemble, hash and sign a block over the given transaction hashes.
    pub fn new(
        prev_hash: Vec<u8>,
        txes: Vec<Vec<u8>>,
        keys: &Keypair,
        height: u64,
        timestamp: u64,
    ) -> (r: Block)
        requires
            keys.wf(),
            prev_hash@.len() == 64,
            txes@.len() > 0,
            leaves_wf(txes@),
        ensures
            spec_block_valid(r@, keys.pk@),
            r@.prev_hash == prev_hash@,
            r@.txes == leaf_views(txes@),
            r@.height == height,
            r@.timestamp == timestamp,
            r@.proposer_pub == keys.pk_hash@,
    {
        let tcount = txes.len();
        assert(tcount <= u64::MAX);
        let merkle_rt = merkle_root(&txes);
        let content = encode_block_data(&prev_hash, &txes, &merkle_rt, height, timestamp);
        let hash = blake2b(&content);
        let signature = ed25519_sign(&keys.sk, &content);
        let r = Block {
            hashed: HashedBlock {
                data: BlockData { prev_hash, txes, merkle_root: merkle_rt, height, timestamp },
                hash,
            },
            proposer_pub: keys.pk_hash.clone(),
            signature,
        };
        proof {
            crate::merkle::lemma_leaf_views(r.hashed.data.txes@);
            assert(spec_enc_block_data(r@) =~= content@);
            assert(forall|i: int|
                0 <= i < r@.txes.len() ==> (#[trigger] r@.txes[i]).len() == 32);
            assert(spec_block_wf(r@));
            assert(r@.hash == spec_blake2b(spec_enc_block_data(r@)));
            assert(r@.merkle_root == spec_merkle_root(r@.txes));
            assert(spec_sig_valid(keys.pk@, spec_enc_block_data(r@), r@.signature));
        }
        r
    }

    /// The stored block hash.
    pub fn hash(&self) -> (r: &Vec<u8>)
        ensures
            r@ == self@.hash,
    {
        &self.hashed.hash
    }

    /// The stored Merkle root.
    pub fn merkle(&self) -> (r: &Vec<u8>)
        ensures
            r@ == self@.merkle_root,
    {
        &self.hashed.data.merkle_root
    }

    /// The block's height.
    pub fn height(&self) -> (r: u64)
        ensures
            r == self@.height,
    {
        self.hashed.data.height
    }

    /// The block's proposal time.
    pub fn timestamp(&self) -> (r: u64)
        ensures
            r == self@.timestamp,
    {
        self.hashed.data.timestamp
    }

    /// Decide validity under the proposer's public key: recompute the
    /// header digest and the Merkle root, and verify the signature.
    pub fn verify(&self, pk: &Vec<u8>) -> (r: bool)
        ensures
            r == spec_block_valid(self@, pk@),
    {
        proof {
            crate::merkle::lemma_leaf_views(self.hashed.data.txes@);
        }
        if self.hashed.data.prev_hash.len() != 64 || self.hashed.data.merkle_root.len() != 32
            || self.hashed.hash.len() != 32 || self.proposer_pub.len() != 32
            || self.signature.len() != 64 {
            return false;
        }
        if self.hashed.data.txes.len() == 0 {
            return false;
        }
        if !txes_all_32(&self.hashed.data.txes) {
            proof {
                let i = choose|i: int|
                    0 <= i < self.hashed.data.txes@.len() && (#[trigger] self.hashed.data.txes@[i])@.len()
                        != 32;
                assert(self@.txes[i].len() != 32);
            }
            return false;
        }
        assert(forall|i: int| 0 <= i < self@.txes.len() ==> (#[trigger] self@.txes[i]).len() == 32);
        let pk_hash = blake2b(pk);
        if !crate::bytes::bytes_eq(&pk_hash, &self.proposer_pub) {
            return false;
        }
        let content = block_data_bytes(self);
        let hash = blake2b(&content);
        if !crate::bytes::bytes_eq(&hash, &self.hashed.hash) {
            return false;
        }
        let root = merkle_root(&self.hashed.data.txes);
        if !crate::bytes::bytes_eq(&root, &self.hashed.data.merkle_root) {
            return false;
        }
        signature_valid(pk, &content, &self.signature)
    }
}

/// Copy a list of hashes, element by element.
pub fn duplicate_hashes(ts: &Vec<Vec<u8>>) -> (r: Vec<Vec<u8>>)
    ensures
        leaf_views(r@) == leaf_views(ts@),
        r@.len() == ts@.len(),
{
    let n = ts.len();
    let mut r: Vec<Vec<u8>> = Vec::new();
    let mut i: usize = 0;
    while i < n
        invariant
            n == ts@.len(),
            0 <= i <= n,
            r@.len() == i,
            forall|j: int| 0 <= j < i ==> (#[trigger] r@[j])@ == ts@[j]@,
        decreases n - i,
    {
        r.push(ts[i].clone());
        i += 1;
    }
    proof {
        crate::merkle::lemma_leaf_views(r@);
        crate::merkle::lemma_leaf_views(ts@);
        assert(leaf_views(r@) =~= leaf_views(ts@));
    }
    r
}

/// Copy a block, field by field.
pub fn duplicate_block(b: &Block) -> (r: Block)
    ensures
        r@ == b@,
{
    Block {
        hashed: HashedBlock {
            data: BlockData {
                prev_hash: b.hashed.data.prev_hash.clone(),
                txes: duplicate_hashes(&b.hashed.data.txes),
                merkle_root: b.hashed.data.merkle_root.clone(),
                height: b.hashed.data.height,
                timestamp: b.hashed.data.timestamp,
            },
            hash: b.hashed.hash.clone(),
        },
        proposer_pub: b.proposer_pub.clone(),
        signature: b.signature.clone(),
    }
}

/// Whether every hash in the list is 32 bytes long.
pub fn txes_all_32(txes: &Vec<Vec<u8>>) -> (r: bool)
    ensures
        r == leaves_wf(txes@),
{
    let n = txes.len();
    let mut i: usize = 0;
    while i < n
        invariant
            n == txes@.len(),
            0 <= i <= n,
            forall|j: int| 0 <= j < i ==> (#[trigger] txes@[j])@.len() == 32,
        decreases n - i,
    {
        if txes[i].len() != 32 {
            return false;
        }
        i += 1;
    }
    true
}

/// Render a block in the canonical encoding.
pub fn encode_block(b: &Block) -> (r: Vec<u8>)
    ensures
        r@ == spec_enc_block(b@),
{
    let mut out = block_data_bytes(b);
    out.extend_from_slice(b.hashed.hash.as_slice());
    out.extend_from_slice(b.proposer_pub.as_slice());
    write_bytes(&mut out, &b.signature);
    assert(out@ =~= spec_enc_block(b@));
    out
}

/// Parse `n` 32-byte hashes at position `pos`.
fn parse_hash_list(s: &Vec<u8>, pos: usize, n: u64) -> (r: Option<(Vec<Vec<u8>>, usize)>)
    requires
        pos <= s@.len(),
    ensures
        match r {
            Some(p) => {
                &&& spec_parse_hashes(s@.skip(pos as int), n as int) == Some(
                    (leaf_views(p.0@), p.1 - pos as int),
                )
                &&& p.0@.len() == n
                &&& leaves_wf(p.0@)
                &&& pos <= p.1 <= s@.len()
            },
            None => spec_parse_hashes(s@.skip(pos as int), n as int) is None,
        },
    decreases n,
{
    if n == 0 {
        let empty: Vec<Vec<u8>> = Vec::new();
        assert(leaf_views(empty@) =~= Seq::<Seq<u8>>::empty());
        return Some((empty, pos));
    }
    let (chunk, pos1) = match parse_fixed(s, pos, 32) {
        Some(p) => p,
        None => {
            assert(s@.skip(pos as int).len() < 32);
            return None;
        },
    };
    assert(s@.skip(pos1 as int) =~= s@.skip(pos as int).skip(32));
    match parse_hash_list(s, pos1, n - 1) {
        Some((mut rest, pos2)) => {
            let ghost old_rest = rest@;
            rest.insert(0, chunk);
            proof {
                assert(leaf_views(rest@) =~= seq![chunk@] + leaf_views(old_rest));
                assert(s@.skip(pos as int).subrange(0, 32) == chunk@);
            }
            Some((rest, pos2))
        },
        None => None,
    }
}

/// Parse a block at position `pos`; on success the block and the position
/// after it.
pub fn parse_block(s: &Vec<u8>, pos: usize) -> (r: Option<(Block, usize)>)
    requires
        pos <= s@.len(),
    ensures
        match r {
            Some(p) => {
                &&& spec_parse_block(s@.skip(pos as int)) == Some((p.0@, p.1 - pos as int))
                &&& spec_block_wf(p.0@)
                &&& pos <= p.1 <= s@.len()
            },
            None => spec_parse_block(s@.skip(pos as int)) is None,
        },
{
    let ghost u = s@.skip(pos as int);
    let (prev_hash, pos1) = match parse_fixed(s, pos, 64) {
        Some(p) => p,
        None => {
            return None;
        },
    };
    assert(s@.skip(pos1 as int) =~= u.skip(pos1 - pos as int));
    let (count, pos2) = match parse_u64(s, pos1) {
        Some(p) => p,
        None => {
            return None;
        },
    };
    assert(s@.skip(pos2 as int) =~= u.skip(pos2 - pos as int));
    let (txes, pos3) = match parse_hash_list(s, pos2, count) {
        Some(p) => p,
        None => {
            return None;
        },
    };
    assert(s@.skip(pos3 as int) =~= u.skip(pos3 - pos as int));
    let (merkle_rt, pos4) = match parse_fixed(s, pos3, 32) {
        Some(p) => p,
        None => {
            return None;
        },
    };
    assert(s@.skip(pos4 as int) =~= u.skip(pos4 - pos as int));
    let (height, pos5) = match parse_u64(s, pos4) {
        Some(p) => p,
        None => {
            return None;
        },
    };
    assert(s@.skip(pos5 as int) =~= u.skip(pos5 - pos as int));
    let (timestamp, pos6) = match parse_u64(s, pos5) {
        Some(p) => p,
        None => {
            return None;
        },
    };
    assert(s@.skip(pos6 as int) =~= u.skip(pos6 - pos as int));
    let (hash, pos7) = match parse_fixed(s, pos6, 32) {
        Some(p) => p,
        None => {
            return None;
        },
    };
    assert(s@.skip(pos7 as int) =~= u.skip(pos7 - pos as int));
    let (proposer_pub, pos8) = match parse_fixed(s, pos7, 32) {
        Some(p) => p,
        None => {
            return None;
        },
    };
    assert(s@.skip(pos8 as int) =~= u.skip(pos8 - pos as int));
    let (signature, pos9) = match parse_bytes(s, pos8) {
        Some(p) => p,
        None => {
            return None;
        },
    };
    if signature.len() != 64 {
        return None;
    }
    let b = Block {
        hashed: HashedBlock {
            data: BlockData { prev_hash, txes, merkle_root: merkle_rt, height, timestamp },
            hash,
        },
        proposer_pub,
        signature,
    };
    Some((b, pos9))
}

/// Decode a complete canonical encoding: succeeds only when the whole
/// input is consumed.
pub fn decode_block(s: &Vec<u8>) -> (r: Option<Block>)
    ensures
        match r {
            Some(b) => {
                &&& spec_parse_block(s@) == Some((b@, s@.len() as int))
                &&& spec_block_wf(b@)
                &&& spec_enc_block(b@) == s@
            },
            None => spec_parse_block(s@) is None || (spec_parse_block(s@) matches Some(p) && p.1
                != s@.len()),
        },
{
    assert(s@.skip(0) =~= s@);
    match parse_block(s, 0) {
        Some((b, n)) => {
            if n == s.len() {
                proof {
                    lemma_parse_block_canonical(s@);
                    assert(s@.take(s@.len() as int) =~= s@);
                }
                Some(b)
            } else {
                None
            }
        },
        None => None,
    }
}

} // verus!
