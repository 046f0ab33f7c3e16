//! The node's single-writer core: chain head, mempool and stores, with the
//! head-decision algorithm, block commitment, proposal, and the service
//! side of the synchronization protocol. An outer loop performs the I/O
//! and feeds events in; every decision and every state change stands here.

use vstd::prelude::*;
use crate::block::{
    Block, BlockView, spec_block_wf, spec_block_valid, decode_block, encode_block,
    duplicate_block,
};
use crate::bytes::{
    bytes_eq, hex_encode, spec_hex, spec_decimal, u64_to_decimal, lemma_spec_hex_len, lex_lt,
};
use crate::conset::{ConsensusSettings, spec_limiters_fire};
use crate::crypto::Keypair;
use crate::kv::{KvMap, has_key, keys_distinct, strictly_sorted, sort_keys};
use crate::merkle::leaf_views;
use crate::tx::{
    Transaction, spec_tx_hash, spec_tx_valid, decode_transaction, encode_transaction,
    duplicate_transaction,
};
use crate::syncmsg::{SyncType, SyncView, spec_parse_sync, spec_enc_sync, decode_sync, encode_sync};

verus! {

/// The 32-byte all-zero identity.
pub open spec fn spec_zeros32() -> Seq<u8> {
    Seq::new(32, |i: int| 0u8)
}

/// Build the 32-byte all-zero identity.
pub fn zero_identity() -> (r: Vec<u8>)
    ensures
        r@ == spec_zeros32(),
        r@.len() == 32,
{
    let r = vec![0u8; 32];
    assert(r@ =~= spec_zeros32());
    r
}

/// The block store key that maps a height to a hash: "block" followed by
/// the height in decimal.
pub open spec fn spec_height_key(h: u64) -> Seq<u8> {
    seq![98u8, 108u8, 111u8, 99u8, 107u8] + spec_decimal(h)
}

/// Build the store key for a height.
pub fn height_key(h: u64) -> (r: Vec<u8>)
    ensures
        r@ == spec_height_key(h),
{
    let mut r: Vec<u8> = Vec::new();
    r.push(98);
    r.push(108);
    r.push(111);
    r.push(99);
    r.push(107);
    let dec = u64_to_decimal(h);
    r.extend_from_slice(dec.as_slice());
    assert(r@ =~= spec_height_key(h));
    r
}

/// What the head decision says about an arriving block.
#[derive(PartialEq, Eq, Structural)]
pub enum HeadDecision {
    /// Drop it: a duplicate, a known non-head block, or no fit.
    Reject,
    /// Same hash as the head but a smaller first signature byte: prefer it.
    TieBreak,
    /// Same height and Merkle root as the head with a later timestamp: a
    /// re-proposal of the same content.
    Repropose,
    /// The next block of the chain.
    Next,
}

/// The head decision, a pure function of the arriving block, the current
/// head, and whether the block's hash is already in the store.
pub open spec fn spec_head_decision(head: BlockView, b: BlockView, known: bool) -> HeadDecision {
    if b.hash == head.hash {
        if b.height == head.height && b.signature[0] < head.signature[0] {
            HeadDecision::TieBreak
        } else {
            HeadDecision::Reject
        }
    } else if known {
        HeadDecision::Reject
    } else if b.height == head.height && b.merkle_root == head.merkle_root && head.timestamp
        < b.timestamp {
        HeadDecision::Repropose
    } else if b.height > head.height && b.height - 1 == head.height && b.prev_hash == spec_hex(
        head.hash,
    ) {
        HeadDecision::Next
    } else {
        HeadDecision::Reject
    }
}

/// The decision is deterministic: it depends on its inputs alone.
pub proof fn lemma_head_decision_deterministic(
    h1: BlockView,
    b1: BlockView,
    k1: bool,
    h2: BlockView,
    b2: BlockView,
    k2: bool,
)
    requires
        h1 == h2,
        b1 == b2,
        k1 == k2,
    ensures
        spec_head_decision(h1, b1, k1) == spec_head_decision(h2, b2, k2),
{
}

/// The durable block store: blocks by hash, hashes by height key, and the
/// committed-height record.
pub struct BlockStore {
    pub by_hash: KvMap<Block>,
    pub by_height: KvMap<Vec<u8>>,
    pub height: u64,
}

/// The single-writer node state.
pub struct NodeState {
    pub keys: Keypair,
    pub settings: ConsensusSettings,
    pub head: Block,
    pub block_height: u64,
    pub nemezis_hash: Vec<u8>,
    pub mempool: KvMap<Transaction>,
    pub pool_size: usize,
    pub block_store: BlockStore,
    pub tx_store: KvMap<Transaction>,
    pub accounts: KvMap<u64>,
    pub pubkeys: KvMap<Vec<u8>>,
}

impl NodeState {
    /// The store records for the committed height agree with the head:
    /// the height record names the head's height, the height key maps to
    /// the head's hash, and the hash maps to the head block.
    pub open spec fn store_consistent(&self) -> bool {
        &&& self.block_store.height == self.block_height
        &&& self.block_store.by_height@.contains_key(spec_height_key(self.block_height))
        &&& self.block_store.by_height@[spec_height_key(self.block_height)]@ == self.head@.hash
        &&& self.block_store.by_hash@.contains_key(self.head@.hash)
        &&& self.block_store.by_hash@[self.head@.hash]@ == self.head@
    }

    /// Every mempool entry sits under its transaction's 32-byte hash.
    pub open spec fn mempool_keyed_by_hash(&self) -> bool {
        forall|k: Seq<u8>|
            #[trigger] self.mempool@.contains_key(k) ==> k.len() == 32 && k == spec_tx_hash(
                self.mempool@[k]@,
            )
    }

    /// Every stored transaction sits under its own 32-byte hash: the store
    /// is content-addressed, so the value under a committed hash is the
    /// transaction with that hash.
    pub open spec fn tx_store_keyed_by_hash(&self) -> bool {
        forall|k: Seq<u8>|
            #[trigger] self.tx_store@.contains_key(k) ==> k.len() == 32 && k == spec_tx_hash(
                self.tx_store@[k]@,
            )
    }

    /// The key the node resolves for a proposer digest: its own where the
    /// digest matches, else the cached peer key, else nothing.
    pub open spec fn spec_signer_key(&self, pk_hash: Seq<u8>) -> Option<Seq<u8>> {
        if pk_hash == self.keys.pk_hash@ {
            Some(self.keys.pk@)
        } else if self.pubkeys@.contains_key(pk_hash) {
            Some(self.pubkeys@[pk_hash]@)
        } else {
            None
        }
    }

    /// The node invariant: well-formed keys and stores, a well-formed head
    /// at the committed height, and consistent store records.
    pub open spec fn wf(&self) -> bool {
        &&& self.keys.wf()
        &&& self.mempool.wf()
        &&& self.block_store.by_hash.wf()
        &&& self.block_store.by_height.wf()
        &&& self.tx_store.wf()
        &&& self.accounts.wf()
        &&& self.pubkeys.wf()
        &&& spec_block_wf(self.head@)
        &&& self.head@.height == self.block_height
        &&& self.store_consistent()
        &&& self.mempool_keyed_by_hash()
        &&& self.tx_store_keyed_by_hash()
    }

    /// Start a node on its genesis block: the stores hold exactly the
    /// genesis records, the mempool is empty.
    pub fn new(keys: Keypair, settings: ConsensusSettings, genesis: Block) -> (r: NodeState)
        requires
            keys.wf(),
            spec_block_wf(genesis@),
            genesis@.height == 0,
        ensures
            r.wf(),
            r.head@ == genesis@,
            r.block_height == 0,
            r.nemezis_hash@ == genesis@.hash,
            r.mempool@ == Map::<Seq<u8>, Transaction>::empty(),
            r.tx_store@ == Map::<Seq<u8>, Transaction>::empty(),
            r.keys == keys,
            r.settings == settings,
    {
        let nemezis_hash = genesis.hashed.hash.clone();
        let mut by_hash: KvMap<Block> = KvMap::new();
        let mut by_height: KvMap<Vec<u8>> = KvMap::new();
        by_hash.insert(genesis.hashed.hash.clone(), duplicate_block(&genesis));
        by_height.insert(height_key(0), genesis.hashed.hash.clone());
        NodeState {
            keys,
            settings,
            head: genesis,
            block_height: 0,
            nemezis_hash,
            mempool: KvMap::new(),
            pool_size: 0,
            block_store: BlockStore { by_hash, by_height, height: 0 },
            tx_store: KvMap::new(),
            accounts: KvMap::new(),
            pubkeys: KvMap::new(),
        }
    }

    /// The public key whose digest is `pk_hash`: the node's own, or one
    /// learnt from peers, or nothing.
    pub fn signer_key(&self, pk_hash: &Vec<u8>) -> (r: Option<Vec<u8>>)
        requires
            self.pubkeys.wf(),
        ensures
            match r {
                Some(pk) => self.spec_signer_key(pk_hash@) == Some(pk@),
                None => self.spec_signer_key(pk_hash@) is None,
            },
    {
        if bytes_eq(pk_hash, &self.keys.pk_hash) {
            return Some(self.keys.pk.clone());
        }
        match self.pubkeys.get(pk_hash) {
            Some(pk) => Some(pk.clone()),
            None => None,
        }
    }

    /// Cache a public key fetched from a peer under its digest.
    pub fn learn_pubkey(&mut self, pk_hash: Vec<u8>, pk: Vec<u8>)
        requires
            old(self).wf(),
        ensures
            final(self).wf(),
            final(self).pubkeys@ == old(self).pubkeys@.insert(pk_hash@, pk),
            final(self).head == old(self).head,
            final(self).block_height == old(self).block_height,
            final(self).mempool == old(self).mempool,
            final(self).tx_store == old(self).tx_store,
            final(self).block_store == old(self).block_store,
            final(self).accounts == old(self).accounts,
            final(self).keys == old(self).keys,
            final(self).settings == old(self).settings,
            final(self).nemezis_hash == old(self).nemezis_hash,
            final(self).pool_size == old(self).pool_size,
    {
        self.pubkeys.insert(pk_hash, pk);
    }

    /// Decide what an arriving, already verified block means for the head.
    pub fn head_decision(&self, b: &Block) -> (r: HeadDecision)
        requires
            self.wf(),
            spec_block_wf(b@),
        ensures
            r == spec_head_decision(
                self.head@,
                b@,
                self.block_store.by_hash@.contains_key(b@.hash),
            ),
    {
        let known = self.block_store.by_hash.contains(&b.hashed.hash);
        if bytes_eq(&b.hashed.hash, &self.head.hashed.hash) {
            if b.hashed.data.height == self.head.hashed.data.height && b.signature[0]
                < self.head.signature[0] {
                HeadDecision::TieBreak
            } else {
                HeadDecision::Reject
            }
        } else if known {
            HeadDecision::Reject
        } else if b.hashed.data.height == self.head.hashed.data.height
            && bytes_eq(&b.hashed.data.merkle_root, &self.head.hashed.data.merkle_root)
            && self.head.hashed.data.timestamp < b.hashed.data.timestamp {
            HeadDecision::Repropose
        } else if b.hashed.data.height > self.head.hashed.data.height && b.hashed.data.height - 1
            == self.head.hashed.data.height && {
            let prev = hex_encode(&self.head.hashed.hash);
            bytes_eq(&b.hashed.data.prev_hash, &prev)
        } {
            HeadDecision::Next
        } else {
            HeadDecision::Reject
        }
    }

    /// The transaction hashes of `b` that neither the mempool nor the
    /// transaction store holds; empty exactly when all are at hand.
    pub fn missing_txes(&self, b: &Block) -> (r: Vec<Vec<u8>>)
        requires
            self.mempool.wf(),
            self.tx_store.wf(),
        ensures
            forall|i: int|
                0 <= i < r@.len() ==> b@.txes.contains((#[trigger] r@[i])@)
                    && !self.mempool@.contains_key(r@[i]@) && !self.tx_store@.contains_key(r@[i]@),
            r@.len() == 0 ==> forall|i: int|
                0 <= i < b@.txes.len() ==> self.mempool@.contains_key(#[trigger] b@.txes[i])
                    || self.tx_store@.contains_key(b@.txes[i]),
            forall|i: int|
                0 <= i < b@.txes.len() && !self.mempool@.contains_key(#[trigger] b@.txes[i])
                    && !self.tx_store@.contains_key(b@.txes[i]) ==> has_key(r@, b@.txes[i]),
    {
        let n = b.hashed.data.txes.len();
        let mut r: Vec<Vec<u8>> = Vec::new();
        let mut i: usize = 0;
        proof {
            crate::merkle::lemma_leaf_views(b.hashed.data.txes@);
        }
        while i < n
            invariant
                n == b.hashed.data.txes@.len(),
                0 <= i <= n,
                self.mempool.wf(),
                self.tx_store.wf(),
                b@.txes == leaf_views(b.hashed.data.txes@),
                b@.txes.len() == n,
                forall|j: int| 0 <= j < b@.txes.len() ==> #[trigger] b@.txes[j]
                    == b.hashed.data.txes@[j]@,
                forall|j: int|
                    0 <= j < r@.len() ==> b@.txes.contains((#[trigger] r@[j])@)
                        && !self.mempool@.contains_key(r@[j]@) && !self.tx_store@.contains_key(
                        r@[j]@,
                    ),
                r@.len() == 0 ==> forall|j: int|
                    0 <= j < i ==> self.mempool@.contains_key(#[trigger] b@.txes[j])
                        || self.tx_store@.contains_key(b@.txes[j]),
                forall|j: int|
                    0 <= j < i && !self.mempool@.contains_key(#[trigger] b@.txes[j])
                        && !self.tx_store@.contains_key(b@.txes[j]) ==> has_key(r@, b@.txes[j]),
            decreases n - i,
        {
            let h = &b.hashed.data.txes[i];
            let ghost before = r@;
            if !self.mempool.contains(h) && !self.tx_store.contains(h) {
                r.push(h.clone());
                proof {
                    assert(b@.txes[i as int] == h@);
                    assert(b@.txes.contains(h@));
                    assert(forall|j: int|
                        0 <= j < before.len() ==> (#[trigger] r@[j]) == before[j]);
                    assert(r@[before.len() as int]@ == b@.txes[i as int]);
                }
            }
            proof {
                assert forall|j: int|
                    0 <= j < i + 1 && !self.mempool@.contains_key(#[trigger] b@.txes[j])
                        && !self.tx_store@.contains_key(b@.txes[j]) implies has_key(
                    r@,
                    b@.txes[j],
                ) by {
                    if j < i as int {
                        assert(has_key(before, b@.txes[j]));
                        let w = choose|w: int|
                            0 <= w < before.len() && (#[trigger] before[w])@ == b@.txes[j];
                        assert(r@[w]@ == b@.txes[j]);
                    }
                }
            }
            i += 1;
        }
        r
    }

    /// Prefer `b` over a head with the same hash and height but a larger
    /// first signature byte: rewrite the head records.
    pub fn apply_tie_break(&mut self, b: Block)
        requires
            old(self).wf(),
            spec_block_wf(b@),
            b@.hash == old(self).head@.hash,
            b@.height == old(self).head@.height,
        ensures
            final(self).wf(),
            final(self).head@ == b@,
            final(self).block_height == old(self).block_height,
            final(self).mempool@ == old(self).mempool@,
            final(self).tx_store@ == old(self).tx_store@,
            final(self).block_store.by_hash@ == old(self).block_store.by_hash@.insert(
                b@.hash,
                final(self).block_store.by_hash@[b@.hash],
            ),
            final(self).block_store.by_hash@[b@.hash]@ == b@,
            final(self).keys == old(self).keys,
            final(self).settings == old(self).settings,
    {
        let hk = height_key(self.block_height);
        self.block_store.by_height.insert(hk, b.hashed.hash.clone());
        self.block_store.by_hash.insert(b.hashed.hash.clone(), duplicate_block(&b));
        self.head = b;
    }

    /// Replace the head with a re-proposal of the same content bearing a
    /// later timestamp: delete the old head record, install `b`. The
    /// height counter does not advance.
    pub fn apply_repropose(&mut self, b: Block)
        requires
            old(self).wf(),
            spec_block_wf(b@),
            b@.hash != old(self).head@.hash,
            b@.height == old(self).head@.height,
        ensures
            final(self).wf(),
            final(self).head@ == b@,
            final(self).block_height == old(self).block_height,
            final(self).mempool@ == old(self).mempool@,
            final(self).tx_store@ == old(self).tx_store@,
            !final(self).block_store.by_hash@.contains_key(old(self).head@.hash),
            final(self).block_store.by_hash@.contains_key(b@.hash),
            final(self).keys == old(self).keys,
            final(self).settings == old(self).settings,
    {
        self.block_store.by_hash.remove(&self.head.hashed.hash);
        let hk = height_key(self.block_height);
        self.block_store.by_height.insert(hk, b.hashed.hash.clone());
        self.block_store.by_hash.insert(b.hashed.hash.clone(), duplicate_block(&b));
        self.head = b;
    }

    /// Commit `b` as the next block: move its transactions from the
    /// mempool to the transaction store, advance the height, install the
    /// head, and write the three store records.
    pub fn commit_block(&mut self, b: Block)
        requires
            old(self).wf(),
            spec_block_wf(b@),
            b@.height == old(self).block_height + 1,
            forall|i: int|
                0 <= i < b@.txes.len() ==> old(self).mempool@.contains_key(#[trigger] b@.txes[i])
                    || old(self).tx_store@.contains_key(b@.txes[i]),
        ensures
            final(self).wf(),
            final(self).head@ == b@,
            final(self).block_height == old(self).block_height + 1,
            final(self).pool_size == 0,
            forall|i: int|
                0 <= i < b@.txes.len() ==> final(self).tx_store@.contains_key(
                    #[trigger] b@.txes[i],
                ) && !final(self).mempool@.contains_key(b@.txes[i]),
            forall|k: Seq<u8>|
                #[trigger] final(self).mempool@.contains_key(k)
                    == (old(self).mempool@.contains_key(k) && !b@.txes.contains(k)),
            forall|k: Seq<u8>|
                #[trigger] final(self).mempool@.contains_key(k)
                    ==> final(self).mempool@[k] == old(self).mempool@[k],
            forall|k: Seq<u8>|
                old(self).mempool@.contains_key(k) && b@.txes.contains(k)
                    ==> final(self).tx_store@.contains_key(k)
                    && (#[trigger] final(self).tx_store@[k])@ == old(self).mempool@[k]@,
            forall|k: Seq<u8>|
                #[trigger] old(self).tx_store@.contains_key(k)
                    ==> final(self).tx_store@.contains_key(k),
            forall|k: Seq<u8>|
                #[trigger] old(self).block_store.by_hash@.contains_key(k)
                    ==> final(self).block_store.by_hash@.contains_key(k),
            final(self).keys == old(self).keys,
            final(self).settings == old(self).settings,
    {
        proof {
            crate::merkle::lemma_leaf_views(b.hashed.data.txes@);
            assert(b@.txes.take(0) =~= Seq::<Seq<u8>>::empty());
        }
        let n = b.hashed.data.txes.len();
        let mut i: usize = 0;
        while i < n
            invariant
                n == b.hashed.data.txes@.len(),
                0 <= i <= n,
                self.mempool.wf(),
                self.tx_store.wf(),
                self.mempool_keyed_by_hash(),
                b@.txes.len() == n,
                forall|j: int| 0 <= j < n ==> #[trigger] b@.txes[j] == b.hashed.data.txes@[j]@,
                forall|j: int|
                    0 <= j < i ==> self.tx_store@.contains_key(#[trigger] b@.txes[j])
                        && !self.mempool@.contains_key(b@.txes[j]),
                forall|j: int|
                    i <= j < n ==> self.mempool@.contains_key(#[trigger] b@.txes[j])
                        || self.tx_store@.contains_key(b@.txes[j]),
                forall|k: Seq<u8>|
                    #[trigger] self.mempool@.contains_key(k) == (old(self).mempool@.contains_key(k)
                        && !b@.txes.take(i as int).contains(k)),
                forall|k: Seq<u8>|
                    #[trigger] self.mempool@.contains_key(k) ==> self.mempool@[k] == old(
                        self,
                    ).mempool@[k],
                forall|j: int|
                    0 <= j < i && old(self).mempool@.contains_key(#[trigger] b@.txes[j])
                        ==> self.tx_store@[b@.txes[j]]@ == old(self).mempool@[b@.txes[j]]@,
                forall|k: Seq<u8>|
                    #[trigger] old(self).tx_store@.contains_key(k) ==> self.tx_store@.contains_key(
                        k,
                    ),
                self.tx_store_keyed_by_hash(),
                self.block_store == old(self).block_store,
                self.head == old(self).head,
                self.block_height == old(self).block_height,
                self.keys == old(self).keys,
                self.settings == old(self).settings,
                self.nemezis_hash == old(self).nemezis_hash,
                self.accounts == old(self).accounts,
                self.pubkeys == old(self).pubkeys,
            decreases n - i,
        {
            let h = &b.hashed.data.txes[i];
            proof {
                assert(b@.txes[i as int] == h@);
                assert(b@.txes.contains(h@));
            }
            match self.mempool.remove(h) {
                Some(tx) => {
                    self.tx_store.insert(h.clone(), tx);
                },
                None => {
                    assert(self.tx_store@.contains_key(h@));
                    proof {
                        if old(self).mempool@.contains_key(h@) {
                            assert(b@.txes.take(i as int).contains(h@));
                            let w = choose|w: int|
                                0 <= w < i && #[trigger] b@.txes.take(i as int)[w] == h@;
                            assert(b@.txes[w] == h@);
                        }
                    }
                },
            }
            proof {
                assert(b@.txes.take(i as int + 1) =~= b@.txes.take(i as int).push(
                    b@.txes[i as int],
                ));
                assert forall|k: Seq<u8>|
                    #[trigger] b@.txes.take(i as int + 1).contains(k) == (b@.txes.take(
                        i as int,
                    ).contains(k) || k == h@) by {
                    if b@.txes.take(i as int + 1).contains(k) {
                        let w = choose|w: int|
                            0 <= w < i + 1 && #[trigger] b@.txes.take(i as int + 1)[w] == k;
                        if w < i as int {
                            assert(b@.txes.take(i as int)[w] == k);
                        }
                    }
                    if b@.txes.take(i as int).contains(k) {
                        let w = choose|w: int|
                            0 <= w < i && #[trigger] b@.txes.take(i as int)[w] == k;
                        assert(b@.txes.take(i as int + 1)[w] == k);
                    }
                    if k == h@ {
                        assert(b@.txes.take(i as int + 1)[i as int] == k);
                    }
                }
            }
            i += 1;
        }
        proof {
            assert(b@.txes.take(n as int) =~= b@.txes);
        }
        let new_height = self.block_height + 1;
        self.block_height = new_height;
        self.block_store.height = new_height;
        let hk = height_key(new_height);
        self.block_store.by_height.insert(hk, b.hashed.hash.clone());
        self.block_store.by_hash.insert(b.hashed.hash.clone(), duplicate_block(&b));
        self.head = b;
        self.pool_size = 0;
    }
}

/// A list of transaction hashes in strictly ascending lexicographic order:
/// the consensus order of a proposed block.
pub open spec fn spec_hashes_sorted(ts: Seq<Seq<u8>>) -> bool {
    forall|i: int, j: int| 0 <= i < j < ts.len() ==> lex_lt(#[trigger] ts[i], #[trigger] ts[j])
}

/// Saturating addition within usize.
pub open spec fn spec_sat_add(a: int, b: int) -> int {
    if a + b > usize::MAX {
        usize::MAX as int
    } else {
        a + b
    }
}

/// The next value of a recipient's seen-transaction counter.
pub open spec fn spec_bump(accounts: Map<Seq<u8>, u64>, recipient: Seq<u8>) -> u64 {
    if accounts.contains_key(recipient) {
        if accounts[recipient] == u64::MAX {
            u64::MAX
        } else {
            (accounts[recipient] + 1) as u64
        }
    } else {
        1
    }
}

/// Whether the block lists a transaction that is neither pooled nor
/// stored, so that a fetch round is owed before it can commit.
pub open spec fn spec_has_missing_tx(pre: NodeState, b: BlockView) -> bool {
    exists|i: int|
        0 <= i < b.txes.len() && !pre.mempool@.contains_key(#[trigger] b.txes[i])
            && !pre.tx_store@.contains_key(b.txes[i])
}

/// The outcome the ingest owes for arriving block bytes, as a function of
/// the prior state and the bytes alone: drop what does not decode, ask for
/// an unresolvable proposer key, drop an invalid block, and otherwise
/// follow the head decision, fetching before a commit when transactions
/// are missing.
pub open spec fn spec_block_outcome_ok(pre: NodeState, bytes: Seq<u8>, r: BlockOutcome) -> bool {
    match crate::block::spec_parse_block(bytes) {
        None => r is Ignored,
        Some(p) => if p.1 != bytes.len() {
            r is Ignored
        } else {
            match pre.spec_signer_key(p.0.proposer_pub) {
                None => r is NeedPubkey,
                Some(pk) => if !spec_block_valid(p.0, pk) {
                    r is Ignored
                } else {
                    match spec_head_decision(
                        pre.head@,
                        p.0,
                        pre.block_store.by_hash@.contains_key(p.0.hash),
                    ) {
                        HeadDecision::Reject => r is Ignored,
                        HeadDecision::TieBreak => r is TieBreak,
                        HeadDecision::Repropose => r is Reproposed,
                        HeadDecision::Next => if spec_has_missing_tx(pre, p.0) {
                            r is NeedTxes
                        } else {
                            r is Committed
                        },
                    }
                },
            }
        },
    }
}

/// The judgement the ingest owes for arriving transaction bytes: drop what
/// does not decode, ask for an unresolvable signer key, and otherwise
/// judge by signature validity and prior mempool membership.
pub open spec fn spec_tx_ingest_ok(pre: NodeState, bytes: Seq<u8>, r: TxIngest) -> bool {
    match crate::tx::spec_parse_tx(bytes) {
        None => r is Dropped,
        Some(p) => if p.1 != bytes.len() {
            r is Dropped
        } else {
            match pre.spec_signer_key(p.0.proposer_pub) {
                None => r is NeedPubkey,
                Some(pk) => match r {
                    TxIngest::Done(o) => if !spec_tx_valid(p.0, pk) {
                        o is Invalid
                    } else if pre.mempool@.contains_key(spec_tx_hash(p.0)) {
                        o is Duplicate
                    } else {
                        o is Admitted
                    },
                    _ => false,
                },
            }
        },
    }
}

/// What became of a block that arrived.
pub enum BlockOutcome {
    /// Dropped: undecodable, invalid, a duplicate, or no fit for the head.
    Ignored,
    /// The proposer's public key is unknown: fetch the key with this
    /// digest, hand it to `learn_pubkey`, and deliver the block again.
    NeedPubkey(Vec<u8>),
    /// These transactions are neither pooled nor stored: fetch each,
    /// hand them to `admit_synced_tx`, and deliver the block again.
    NeedTxes(Vec<Vec<u8>>),
    /// The head was replaced by the same block under a smaller signature.
    TieBreak,
    /// The head was replaced by a re-proposal with a later timestamp.
    Reproposed,
    /// The block was committed as the new head.
    Committed,
}

/// What became of a transaction that arrived.
pub enum TxOutcome {
    /// The signature did not verify: dropped.
    Invalid,
    /// Already pooled; the pooled copy is refreshed.
    Duplicate,
    /// Newly admitted to the mempool; the recipient's counter moved.
    Admitted,
}

/// What became of transaction bytes that arrived.
pub enum TxIngest {
    /// Undecodable: dropped.
    Dropped,
    /// The signer's public key is unknown: fetch the key with this digest,
    /// hand it to `learn_pubkey`, and deliver the bytes again.
    NeedPubkey(Vec<u8>),
    /// Decoded and judged under the signer's key.
    Done(TxOutcome),
}

impl NodeState {
    /// Ingest an arriving block: decode, resolve the proposer's key,
    /// verify, and apply the head decision. The chain height never
    /// decreases, and a commit empties the block's transactions out of
    /// the mempool into the transaction store.
    pub fn handle_block_bytes(&mut self, bytes: &Vec<u8>) -> (r: BlockOutcome)
        requires
            old(self).wf(),
        ensures
            final(self).wf(),
            final(self).block_height >= old(self).block_height,
            final(self).keys == old(self).keys,
            final(self).settings == old(self).settings,
            spec_block_outcome_ok(*old(self), bytes@, r),
            match r {
                BlockOutcome::Ignored => *final(self) == *old(self),
                BlockOutcome::NeedPubkey(h) => *final(self) == *old(self) && (
                crate::block::spec_parse_block(bytes@) matches Some(p) && h@ == p.0.proposer_pub),
                BlockOutcome::NeedTxes(hs) => *final(self) == *old(self) && hs@.len() > 0 && (
                crate::block::spec_parse_block(bytes@) matches Some(p) && (forall|i: int|
                    0 <= i < hs@.len() ==> p.0.txes.contains((#[trigger] hs@[i])@) && !old(
                        self,
                    ).mempool@.contains_key(hs@[i]@) && !old(self).tx_store@.contains_key(
                        hs@[i]@,
                    )) && (forall|j: int|
                    0 <= j < p.0.txes.len() && !old(self).mempool@.contains_key(
                        #[trigger] p.0.txes[j],
                    ) && !old(self).tx_store@.contains_key(p.0.txes[j]) ==> has_key(
                        hs@,
                        p.0.txes[j],
                    ))),
                BlockOutcome::TieBreak => (crate::block::spec_parse_block(bytes@) matches Some(p)
                    && final(self).head@ == p.0 && p.0.hash == old(self).head@.hash
                    && p.0.signature[0] < old(self).head@.signature[0] && (old(
                    self,
                ).spec_signer_key(p.0.proposer_pub) matches Some(pk) && spec_block_valid(p.0, pk)))
                    && final(self).block_height == old(self).block_height,
                BlockOutcome::Reproposed => (crate::block::spec_parse_block(bytes@) matches Some(p)
                    && final(self).head@ == p.0 && old(self).head@.timestamp < p.0.timestamp && (
                old(self).spec_signer_key(p.0.proposer_pub) matches Some(pk) && spec_block_valid(
                    p.0,
                    pk,
                ))) && final(self).block_height == old(self).block_height,
                BlockOutcome::Committed => (crate::block::spec_parse_block(bytes@) matches Some(p)
                    && final(self).head@ == p.0 && p.0.height == old(self).block_height + 1 && (
                old(self).spec_signer_key(p.0.proposer_pub) matches Some(pk) && spec_block_valid(
                    p.0,
                    pk,
                )) && forall|i: int|
                    0 <= i < p.0.txes.len() ==> final(self).tx_store@.contains_key(
                        #[trigger] p.0.txes[i],
                    ) && !final(self).mempool@.contains_key(p.0.txes[i]))
                    && final(self).block_height == old(self).block_height + 1,
            },
    {
        let b = match decode_block(bytes) {
            Some(b) => b,
            None => {
                return BlockOutcome::Ignored;
            },
        };
        let pk = match self.signer_key(&b.proposer_pub) {
            Some(pk) => pk,
            None => {
                return BlockOutcome::NeedPubkey(b.proposer_pub.clone());
            },
        };
        if !b.verify(&pk) {
            return BlockOutcome::Ignored;
        }
        match self.head_decision(&b) {
            HeadDecision::Reject => BlockOutcome::Ignored,
            HeadDecision::TieBreak => {
                self.apply_tie_break(b);
                BlockOutcome::TieBreak
            },
            HeadDecision::Repropose => {
                self.apply_repropose(b);
                BlockOutcome::Reproposed
            },
            HeadDecision::Next => {
                let missing = self.missing_txes(&b);
                if missing.len() > 0 {
                    proof {
                        assert(b@.txes.contains(missing@[0]@));
                        let j = choose|j: int|
                            0 <= j < b@.txes.len() && #[trigger] b@.txes[j] == missing@[0]@;
                        assert(!self.mempool@.contains_key(b@.txes[j])
                            && !self.tx_store@.contains_key(b@.txes[j]));
                        assert(spec_has_missing_tx(*self, b@));
                    }
                    return BlockOutcome::NeedTxes(missing);
                }
                proof {
                    if spec_has_missing_tx(*self, b@) {
                        let j = choose|j: int|
                            0 <= j < b@.txes.len() && !self.mempool@.contains_key(
                                #[trigger] b@.txes[j],
                            ) && !self.tx_store@.contains_key(b@.txes[j]);
                        assert(false);
                    }
                }
                self.commit_block(b);
                BlockOutcome::Committed
            },
        }
    }

    /// Admit a transaction fetched from a peer during a block ingest: it
    /// is verified under the key this node resolves for the given digest,
    /// the ingested block's proposer, and pooled on success.
    pub fn admit_synced_tx(&mut self, tx: Transaction, proposer: &Vec<u8>) -> (r: bool)
        requires
            old(self).wf(),
        ensures
            final(self).wf(),
            r == (old(self).spec_signer_key(proposer@) matches Some(pk) && spec_tx_valid(
                tx@,
                pk,
            )),
            r ==> final(self).mempool@ == old(self).mempool@.insert(spec_tx_hash(tx@), tx),
            !r ==> *final(self) == *old(self),
            final(self).block_height == old(self).block_height,
            final(self).head == old(self).head,
            final(self).tx_store == old(self).tx_store,
            final(self).block_store == old(self).block_store,
    {
        let pk = match self.signer_key(proposer) {
            Some(pk) => pk,
            None => {
                return false;
            },
        };
        if tx.verify(&pk) {
            let h = tx.hash();
            self.mempool.insert(h, tx);
            true
        } else {
            false
        }
    }

    /// Judge an arriving transaction under its signer's key: verify, pool
    /// it, count its recipient, and grow the pool-size measure.
    pub fn admit_transaction(&mut self, tx: Transaction, pk: &Vec<u8>) -> (r: TxOutcome)
        requires
            old(self).wf(),
        ensures
            final(self).wf(),
            final(self).block_height == old(self).block_height,
            final(self).head == old(self).head,
            final(self).tx_store == old(self).tx_store,
            final(self).block_store == old(self).block_store,
            final(self).pubkeys == old(self).pubkeys,
            match r {
                TxOutcome::Invalid => !spec_tx_valid(tx@, pk@) && *final(self) == *old(self),
                TxOutcome::Duplicate => spec_tx_valid(tx@, pk@) && old(self).mempool@.contains_key(
                    spec_tx_hash(tx@),
                ) && final(self).mempool@ == old(self).mempool@.insert(spec_tx_hash(tx@), tx)
                    && final(self).accounts == old(self).accounts && final(self).pool_size
                    == spec_sat_add(
                    old(self).pool_size as int,
                    crate::tx::spec_enc_tx(tx@).len() as int,
                ),
                TxOutcome::Admitted => spec_tx_valid(tx@, pk@) && !old(
                    self,
                ).mempool@.contains_key(spec_tx_hash(tx@)) && final(self).mempool@ == old(
                    self,
                ).mempool@.insert(spec_tx_hash(tx@), tx) && final(self).accounts@ == old(
                    self,
                ).accounts@.insert(tx@.recipient, spec_bump(old(self).accounts@, tx@.recipient))
                    && final(self).pool_size == spec_sat_add(
                    old(self).pool_size as int,
                    crate::tx::spec_enc_tx(tx@).len() as int,
                ),
            },
    {
        if !tx.verify(pk) {
            return TxOutcome::Invalid;
        }
        let l = tx.len();
        self.pool_size = if self.pool_size > usize::MAX - l {
            usize::MAX
        } else {
            self.pool_size + l
        };
        let h = tx.hash();
        let recipient = tx.body.recipient.clone();
        let was_present = self.mempool.insert(h, tx);
        if was_present {
            TxOutcome::Duplicate
        } else {
            let count = match self.accounts.get(&recipient) {
                Some(v) => {
                    if *v == u64::MAX {
                        u64::MAX
                    } else {
                        *v + 1
                    }
                },
                None => 1,
            };
            self.accounts.insert(recipient, count);
            TxOutcome::Admitted
        }
    }

    /// Ingest arriving transaction bytes: decode, resolve the signer's
    /// key, then judge.
    pub fn handle_transaction_bytes(&mut self, bytes: &Vec<u8>) -> (r: TxIngest)
        requires
            old(self).wf(),
        ensures
            final(self).wf(),
            final(self).block_height == old(self).block_height,
            final(self).head == old(self).head,
            final(self).tx_store == old(self).tx_store,
            final(self).block_store == old(self).block_store,
            spec_tx_ingest_ok(*old(self), bytes@, r),
            match r {
                TxIngest::Dropped => *final(self) == *old(self),
                TxIngest::NeedPubkey(h) => *final(self) == *old(self) && (
                crate::tx::spec_parse_tx(bytes@) matches Some(p) && h@ == p.0.proposer_pub),
                TxIngest::Done(o) => (crate::tx::spec_parse_tx(bytes@) matches Some(p) && (
                o matches TxOutcome::Invalid ==> *final(self) == *old(self)) && (!(
                o matches TxOutcome::Invalid) ==> final(self).mempool@.contains_key(
                    spec_tx_hash(p.0),
                ) && final(self).mempool@[spec_tx_hash(p.0)]@ == p.0 && final(self).pool_size
                    == spec_sat_add(
                    old(self).pool_size as int,
                    crate::tx::spec_enc_tx(p.0).len() as int,
                ) && (forall|k: Seq<u8>|
                    #[trigger] final(self).mempool@.contains_key(k) ==> k == spec_tx_hash(p.0) || (
                    old(self).mempool@.contains_key(k) && final(self).mempool@[k]
                        == old(self).mempool@[k]))) && (o matches TxOutcome::Duplicate
                    ==> final(self).accounts == old(self).accounts) && (
                o matches TxOutcome::Admitted ==> final(self).accounts@
                    == old(self).accounts@.insert(
                    p.0.recipient,
                    spec_bump(old(self).accounts@, p.0.recipient),
                ))),
            },
    {
        let tx = match decode_transaction(bytes) {
            Some(t) => t,
            None => {
                return TxIngest::Dropped;
            },
        };
        let pk = match self.signer_key(&tx.proposer_pub) {
            Some(pk) => pk,
            None => {
                return TxIngest::NeedPubkey(tx.proposer_pub.clone());
            },
        };
        let ghost tv = tx@;
        let o = self.admit_transaction(tx, &pk);
        proof {
            if !(o matches TxOutcome::Invalid) {
                assert(self.mempool@.contains_key(spec_tx_hash(tv)));
            }
        }
        TxIngest::Done(o)
    }

    /// Whether the limiters authorize a proposal now: a threshold fired,
    /// the mempool is not empty, and the height counter can advance.
    pub fn should_propose(&self, now: u64) -> (r: bool)
        requires
            self.wf(),
        ensures
            r == (spec_limiters_fire(
                self.settings,
                self.mempool@.dom().len() as int,
                self.pool_size as int,
                self.head@.timestamp,
                now,
            ) && self.mempool@.dom().len() > 0 && self.block_height < u64::MAX),
    {
        let len = self.mempool.len();
        self.settings.check_limiters(len, self.pool_size, self.head.hashed.data.timestamp, now)
            && len > 0 && self.block_height < u64::MAX
    }

    /// Assemble, commit and return the next block: every pooled
    /// transaction moves to the transaction store, and the block lists
    /// their hashes in strictly ascending lexicographic order.
    pub fn propose_block(&mut self, now: u64) -> (r: Block)
        requires
            old(self).wf(),
            old(self).mempool@.dom().len() > 0,
            old(self).block_height < u64::MAX,
        ensures
            final(self).wf(),
            final(self).head@ == r@,
            spec_block_valid(r@, final(self).keys.pk@),
            final(self).block_height == old(self).block_height + 1,
            r@.height == old(self).block_height + 1,
            r@.prev_hash == spec_hex(old(self).head@.hash),
            r@.timestamp == now,
            spec_hashes_sorted(r@.txes),
            final(self).mempool@ == Map::<Seq<u8>, Transaction>::empty(),
            final(self).pool_size == 0,
            forall|i: int|
                0 <= i < r@.txes.len() ==> final(self).tx_store@.contains_key(
                    #[trigger] r@.txes[i],
                ) && old(self).mempool@.contains_key(r@.txes[i]),
            forall|i: int|
                0 <= i < r@.txes.len() ==> (#[trigger] final(self).tx_store@[r@.txes[i]])@ == old(
                    self,
                ).mempool@[r@.txes[i]]@,
            forall|k: Seq<u8>|
                #[trigger] old(self).mempool@.contains_key(k) ==> r@.txes.contains(k),
            final(self).keys == old(self).keys,
            final(self).settings == old(self).settings,
    {
        proof {
            crate::kv::lemma_map_of_dom_len(self.mempool.entries@);
        }
        let keys_list = self.mempool.keys();
        let sorted = sort_keys(keys_list);
        let ghost sorted_snap = sorted@;
        proof {
            assert forall|i: int| 0 <= i < sorted@.len() implies (#[trigger] sorted@[i])@.len()
                == 32 by {
                assert(has_key(sorted@, sorted@[i]@));
            }
            assert forall|i: int, j: int|
                0 <= i < j < sorted@.len() implies (#[trigger] sorted@[i])@ != (
            #[trigger] sorted@[j])@ by {
                crate::bytes::lemma_lex_irreflexive(sorted@[i]@);
            }
        }
        let n = sorted.len();
        let mut i: usize = 0;
        while i < n
            invariant
                n == sorted@.len(),
                sorted@ == sorted_snap,
                0 <= i <= n,
                self.mempool.wf(),
                self.tx_store.wf(),
                self.mempool_keyed_by_hash(),
                keys_distinct(sorted@),
                forall|x: Seq<u8>| has_key(sorted@, x) == old(self).mempool@.contains_key(x),
                forall|k: Seq<u8>|
                    #[trigger] self.mempool@.contains_key(k) == (old(self).mempool@.contains_key(k)
                        && !has_key(sorted@.take(i as int), k)),
                forall|j: int|
                    0 <= j < i ==> self.tx_store@.contains_key((#[trigger] sorted@[j])@),
                forall|j: int|
                    0 <= j < i && old(self).mempool@.contains_key((#[trigger] sorted@[j])@)
                        ==> self.tx_store@[sorted@[j]@]@ == old(self).mempool@[sorted@[j]@]@,
                forall|k: Seq<u8>|
                    #[trigger] self.mempool@.contains_key(k) ==> self.mempool@[k] == old(
                        self,
                    ).mempool@[k],
                forall|k: Seq<u8>|
                    #[trigger] old(self).tx_store@.contains_key(k) ==> self.tx_store@.contains_key(
                        k,
                    ),
                self.tx_store_keyed_by_hash(),
                self.block_store == old(self).block_store,
                self.head == old(self).head,
                self.block_height == old(self).block_height,
                self.keys == old(self).keys,
                self.settings == old(self).settings,
                self.nemezis_hash == old(self).nemezis_hash,
                self.accounts == old(self).accounts,
                self.pubkeys == old(self).pubkeys,
                self.pool_size == old(self).pool_size,
            decreases n - i,
        {
            let h = &sorted[i];
            proof {
                assert(has_key(sorted@, h@));
                assert(!has_key(sorted@.take(i as int), h@)) by {
                    if has_key(sorted@.take(i as int), h@) {
                        let j = choose|j: int|
                            0 <= j < i && (#[trigger] sorted@.take(i as int)[j])@ == h@;
                        assert(sorted@[j]@ == sorted@[i as int]@);
                    }
                }
                assert(self.mempool@.contains_key(h@));
            }
            match self.mempool.remove(h) {
                Some(tx) => {
                    self.tx_store.insert(h.clone(), tx);
                },
                None => {
                    proof {
                        assert(false);
                    }
                },
            }
            proof {
                assert forall|k: Seq<u8>|
                    #[trigger] self.mempool@.contains_key(k) == (old(self).mempool@.contains_key(k)
                        && !has_key(sorted@.take(i as int + 1), k)) by {
                    assert(has_key(sorted@.take(i as int + 1), k) == (has_key(
                        sorted@.take(i as int),
                        k,
                    ) || k == h@)) by {
                        if has_key(sorted@.take(i as int + 1), k) {
                            let j = choose|j: int|
                                0 <= j < i + 1 && (#[trigger] sorted@.take(i as int + 1)[j])@ == k;
                            if j < i as int {
                                assert(sorted@.take(i as int)[j]@ == k);
                            }
                        }
                        if has_key(sorted@.take(i as int), k) {
                            let j = choose|j: int|
                                0 <= j < i && (#[trigger] sorted@.take(i as int)[j])@ == k;
                            assert(sorted@.take(i as int + 1)[j]@ == k);
                        }
                        if k == h@ {
                            assert(sorted@.take(i as int + 1)[i as int]@ == k);
                        }
                    }
                }
            }
            i += 1;
        }
        proof {
            assert(self.mempool@ =~= Map::<Seq<u8>, Transaction>::empty()) by {
                assert forall|k: Seq<u8>| !(#[trigger] self.mempool@.contains_key(k)) by {
                    if old(self).mempool@.contains_key(k) {
                        assert(has_key(sorted@, k));
                        assert(sorted@.take(n as int) =~= sorted@);
                    }
                }
            }
        }
        let new_height = self.block_height + 1;
        let prev = hex_encode(&self.head.hashed.hash);
        proof {
            lemma_spec_hex_len(self.head@.hash);
        }
        let b = Block::new(prev, sorted, &self.keys, new_height, now);
        proof {
            crate::merkle::lemma_leaf_views(sorted_snap);
            assert forall|i2: int, j2: int| 0 <= i2 < j2 < b@.txes.len() implies lex_lt(
                #[trigger] b@.txes[i2],
                #[trigger] b@.txes[j2],
            ) by {
                assert(b@.txes[i2] == sorted_snap[i2]@ && b@.txes[j2] == sorted_snap[j2]@);
            }
            assert forall|i2: int| 0 <= i2 < b@.txes.len() implies self.tx_store@.contains_key(
                #[trigger] b@.txes[i2],
            ) && old(self).mempool@.contains_key(b@.txes[i2]) && self.tx_store@[b@.txes[i2]]@
                == old(self).mempool@[b@.txes[i2]]@ by {
                assert(b@.txes[i2] == sorted_snap[i2]@);
                assert(has_key(sorted_snap, sorted_snap[i2]@));
            }
            assert forall|k: Seq<u8>|
                #[trigger] old(self).mempool@.contains_key(k) implies b@.txes.contains(k) by {
                assert(has_key(sorted_snap, k));
                let j = choose|j: int| 0 <= j < sorted_snap.len() && (#[trigger] sorted_snap[j])@
                    == k;
                assert(b@.txes[j] == k);
            }
        }
        self.block_height = new_height;
        self.block_store.height = new_height;
        let hk = height_key(new_height);
        self.block_store.by_height.insert(hk, b.hashed.hash.clone());
        self.block_store.by_hash.insert(b.hashed.hash.clone(), duplicate_block(&b));
        let out = duplicate_block(&b);
        self.head = b;
        self.pool_size = 0;
        out
    }

    /// The pooled transaction under a hash, for the query surface.
    pub fn mempool_transaction(&self, hash: &Vec<u8>) -> (r: Option<Transaction>)
        requires
            self.wf(),
        ensures
            match r {
                Some(t) => self.mempool@.contains_key(hash@) && t@ == self.mempool@[hash@]@,
                None => !self.mempool@.contains_key(hash@),
            },
    {
        match self.mempool.get(hash) {
            Some(t) => Some(duplicate_transaction(t)),
            None => None,
        }
    }

    /// Wrap bytes as a chat transaction: addressed to the zero identity
    /// and signed with the node's own key.
    pub fn chat_transaction(&self, data: Vec<u8>) -> (r: Transaction)
        requires
            self.keys.wf(),
        ensures
            spec_tx_valid(r@, self.keys.pk@),
            r@.recipient == spec_zeros32(),
            r@.data == data@,
    {
        Transaction::new(crate::tx::TxBody::new(zero_identity(), data), &self.keys)
    }

    /// Answer a peer's key request, or take note of an announced key; an
    /// unknown announcement is cached and answered by re-announcing the
    /// node's own key.
    pub fn handle_pubkey_request(&self, key_hash: &Vec<u8>) -> (r: Option<Vec<u8>>)
        requires
            self.wf(),
        ensures
            match r {
                Some(pk) => self.pubkeys@.contains_key(key_hash@) && pk@
                    == self.pubkeys@[key_hash@]@,
                None => !self.pubkeys@.contains_key(key_hash@),
            },
    {
        match self.pubkeys.get(key_hash) {
            Some(pk) => Some(pk.clone()),
            None => None,
        }
    }

    /// Take note of an announced public key: cache it under its digest if
    /// it is new, and say whether to re-announce our own key in reply.
    pub fn handle_pubkey_announcement(&mut self, pk: Vec<u8>) -> (r: Option<Vec<u8>>)
        requires
            old(self).wf(),
        ensures
            final(self).wf(),
            final(self).block_height == old(self).block_height,
            final(self).head == old(self).head,
            match r {
                Some(own) => !old(self).pubkeys@.contains_key(
                    crate::crypto::spec_blake2b(pk@),
                ) && final(self).pubkeys@ == old(self).pubkeys@.insert(
                    crate::crypto::spec_blake2b(pk@),
                    pk,
                ) && own@ == old(self).keys.pk@,
                None => old(self).pubkeys@.contains_key(crate::crypto::spec_blake2b(pk@))
                    && *final(self) == *old(self),
            },
    {
        let pkh = crate::crypto::blake2b(&pk);
        if self.pubkeys.contains(&pkh) {
            None
        } else {
            self.pubkeys.insert(pkh, pk);
            Some(self.keys.pk.clone())
        }
    }

    /// The remote tip to catch up to: the highest height among the peers'
    /// replies, or zero where nobody answered.
    pub fn highest_height(replies: &Vec<u64>) -> (r: u64)
        ensures
            replies@.len() == 0 ==> r == 0,
            forall|i: int| 0 <= i < replies@.len() ==> replies@[i] <= r,
            replies@.len() > 0 ==> replies@.contains(r),
    {
        let n = replies.len();
        let mut r: u64 = 0;
        let mut i: usize = 0;
        while i < n
            invariant
                n == replies@.len(),
                0 <= i <= n,
                forall|j: int| 0 <= j < i ==> replies@[j] <= r,
                i == 0 ==> r == 0,
                i > 0 ==> replies@.contains(r),
            decreases n - i,
        {
            if replies[i] > r || i == 0 {
                r = replies[i];
            }
            i += 1;
        }
        r
    }

    /// During catch-up, the next query to send: the hash at the height
    /// just above ours, until the remote tip is reached.
    pub fn next_sync_request(&self, remote_tip: u64) -> (r: Option<SyncType>)
        ensures
            match r {
                Some(m) => self.block_height < remote_tip && m@ == SyncView::AtHeight(
                    (self.block_height + 1) as u64,
                ),
                None => self.block_height >= remote_tip,
            },
    {
        if self.block_height < remote_tip {
            Some(SyncType::AtHeight(self.block_height + 1))
        } else {
            None
        }
    }

    /// Service a peer's synchronization request: the reply payload, or
    /// nothing where the request is undecodable, unanswerable here, or not
    /// a request.
    pub fn handle_sync_request(&self, body: &Vec<u8>) -> (r: Option<Vec<u8>>)
        requires
            self.wf(),
        ensures
            match spec_parse_sync(body@) {
                None => r is None,
                Some(m) => match m {
                    SyncView::GetHeight => (r matches Some(out) && out@ == spec_enc_sync(
                        SyncView::Height(self.block_height),
                    )),
                    SyncView::GetNemezis => if self.block_store.by_hash@.contains_key(
                        self.nemezis_hash@,
                    ) {
                        (r matches Some(out) && out@ == spec_enc_sync(
                            SyncView::Block(
                                crate::block::spec_enc_block(
                                    self.block_store.by_hash@[self.nemezis_hash@]@,
                                ),
                            ),
                        ))
                    } else {
                        r is None
                    },
                    SyncView::AtHeight(h) => if self.block_store.by_height@.contains_key(
                        spec_height_key(h),
                    ) {
                        (r matches Some(out) && out@ == spec_enc_sync(
                            SyncView::BlockHash(
                                self.block_store.by_height@[spec_height_key(h)]@,
                            ),
                        ))
                    } else {
                        r is None
                    },
                    SyncView::TransactionAtHash(h) => if self.mempool@.contains_key(h) {
                        (r matches Some(out) && out@ == spec_enc_sync(
                            SyncView::Transaction(
                                crate::tx::spec_enc_tx(self.mempool@[h]@),
                            ),
                        ))
                    } else if self.tx_store@.contains_key(h) {
                        (r matches Some(out) && out@ == spec_enc_sync(
                            SyncView::Transaction(
                                crate::tx::spec_enc_tx(self.tx_store@[h]@),
                            ),
                        ))
                    } else {
                        r is None
                    },
                    SyncView::BlockAtHash(h) => if self.block_store.by_hash@.contains_key(h) {
                        (r matches Some(out) && out@ == spec_enc_sync(
                            SyncView::Block(
                                crate::block::spec_enc_block(self.block_store.by_hash@[h]@),
                            ),
                        ))
                    } else {
                        r is None
                    },
                    _ => r is None,
                },
            },
    {
        let m = match decode_sync(body) {
            Some(m) => m,
            None => {
                return None;
            },
        };
        match m {
            SyncType::GetHeight => Some(encode_sync(&SyncType::Height(self.block_height))),
            SyncType::GetNemezis => {
                match self.block_store.by_hash.get(&self.nemezis_hash) {
                    Some(b) => Some(encode_sync(&SyncType::Block(encode_block(b)))),
                    None => None,
                }
            },
            SyncType::AtHeight(h) => {
                let hk = height_key(h);
                match self.block_store.by_height.get(&hk) {
                    Some(hash) => Some(encode_sync(&SyncType::BlockHash(hash.clone()))),
                    None => None,
                }
            },
            SyncType::TransactionAtHash(h) => {
                match self.mempool.get(&h) {
                    Some(t) => Some(encode_sync(&SyncType::Transaction(encode_transaction(t)))),
                    None => match self.tx_store.get(&h) {
                        Some(t) => Some(
                            encode_sync(&SyncType::Transaction(encode_transaction(t))),
                        ),
                        None => None,
                    },
                }
            },
            SyncType::BlockAtHash(h) => {
                match self.block_store.by_hash.get(&h) {
                    Some(b) => Some(encode_sync(&SyncType::Block(encode_block(b)))),
                    None => None,
                }
            },
            SyncType::Height(_) => None,
            SyncType::Transaction(_) => None,
            SyncType::Block(_) => None,
            SyncType::BlockHash(_) => None,
        }
    }
}

} // verus!
