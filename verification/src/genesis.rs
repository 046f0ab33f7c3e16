//! Genesis bootstrap: construct the height-0 block whose sole transaction
//! carries the canonical encoding of the network's consensus settings.

use vstd::prelude::*;
use crate::block::{Block, spec_block_valid};
use crate::bytes::{hex_encode, spec_hex, lemma_spec_hex_len};
use crate::conset::{ConsensusSettings, spec_enc_settings, encode_settings};
use crate::crypto::{Keypair, blake2b, spec_blake2b};
use crate::node::{zero_identity, spec_zeros32};
use crate::tx::{Transaction, TxBody, spec_tx_hash, spec_tx_valid};

verus! {

/// Build and sign the genesis block: height 0, parent the digest of the
/// zero identity, and exactly one transaction, addressed to the zero
/// identity, whose payload is the canonical encoding of the default
/// consensus settings.
pub fn generate_nemezis_block(keys: &Keypair, now: u64) -> (r: (Block, Transaction))
    requires
        keys.wf(),
    ensures
        spec_block_valid(r.0@, keys.pk@),
        r.0@.height == 0,
        r.0@.timestamp == now,
        r.0@.txes.len() == 1,
        r.0@.txes[0] == spec_tx_hash(r.1@),
        r.0@.prev_hash == spec_hex(spec_blake2b(spec_zeros32())),
        spec_tx_valid(r.1@, keys.pk@),
        r.1@.recipient == spec_zeros32(),
        r.1@.data == spec_enc_settings(ConsensusSettings::spec_default()),
{
    let settings = ConsensusSettings::default();
    let payload = encode_settings(&settings);
    let body = TxBody::new(zero_identity(), payload);
    let tx = Transaction::new(body, keys);
    let h = tx.hash();
    let mut txv: Vec<Vec<u8>> = Vec::new();
    txv.push(h);
    let zero_hash = blake2b(&zero_identity());
    let prev = hex_encode(&zero_hash);
    proof {
        lemma_spec_hex_len(spec_blake2b(spec_zeros32()));
        assert(crate::merkle::leaves_wf(txv@));
    }
    let b = Block::new(prev, txv, keys, 0, now);
    proof {
        crate::merkle::lemma_leaf_views(b.hashed.data.txes@);
    }
    (b, tx)
}

} // verus!
