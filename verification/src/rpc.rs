//! The decision core of the query surface: bearer-token authorization and
//! the store lookups behind each query method. The listener, JSON framing
//! and threading live outside the library.

use vstd::prelude::*;
use crate::block::{encode_block, spec_enc_block};
use crate::bytes::{spec_decimal, u64_to_decimal};
use crate::node::{NodeState, height_key, spec_height_key};
use crate::tx::{encode_transaction, spec_enc_tx};

verus! {

/// The request metadata: the caller's authorization header, if any, and
/// the node's configured bearer token.
pub struct Meta {
    pub auth: Option<String>,
    pub token: String,
}

impl Meta {
    /// Authorized exactly when a header was sent and matches the token.
    pub open spec fn spec_authorized(&self) -> bool {
        &&& self.auth is Some
        &&& self.auth->0@ == self.token@
    }

    /// Decide authorization.
    pub fn check(&self) -> (r: bool)
        ensures
            r == self.spec_authorized(),
    {
        match &self.auth {
            Some(a) => *a == self.token,
            None => false,
        }
    }
}

/// Why a query was refused.
#[derive(Debug, PartialEq, Eq, Structural)]
pub enum RpcError {
    /// The bearer token was missing or wrong.
    Forbidden,
    /// Nothing is stored under the queried key.
    NotFound,
}

/// The block at a height: refused without the token; otherwise the stored
/// block's canonical encoding, found through the height record.
pub fn block_by_height(state: &NodeState, meta: &Meta, height: u64) -> (r: Result<
    Vec<u8>,
    RpcError,
>)
    requires
        state.wf(),
    ensures
        !meta.spec_authorized() ==> r == Result::<Vec<u8>, RpcError>::Err(RpcError::Forbidden),
        meta.spec_authorized() ==> match r {
            Ok(bytes) => state.block_store.by_height@.contains_key(spec_height_key(height))
                && state.block_store.by_hash@.contains_key(
                state.block_store.by_height@[spec_height_key(height)]@,
            ) && bytes@ == spec_enc_block(
                state.block_store.by_hash@[state.block_store.by_height@[spec_height_key(
                    height,
                )]@]@,
            ),
            Err(e) => e == RpcError::NotFound && (!state.block_store.by_height@.contains_key(
                spec_height_key(height),
            ) || !state.block_store.by_hash@.contains_key(
                state.block_store.by_height@[spec_height_key(height)]@,
            )),
        },
{
    if !meta.check() {
        return Err(RpcError::Forbidden);
    }
    let hk = height_key(height);
    match state.block_store.by_height.get(&hk) {
        Some(hash) => match state.block_store.by_hash.get(hash) {
            Some(b) => Ok(encode_block(b)),
            None => Err(RpcError::NotFound),
        },
        None => Err(RpcError::NotFound),
    }
}

/// The block under a hash: refused without the token; otherwise the
/// stored block's canonical encoding.
pub fn block_by_hash(state: &NodeState, meta: &Meta, hash: &Vec<u8>) -> (r: Result<
    Vec<u8>,
    RpcError,
>)
    requires
        state.wf(),
    ensures
        !meta.spec_authorized() ==> r == Result::<Vec<u8>, RpcError>::Err(RpcError::Forbidden),
        meta.spec_authorized() ==> match r {
            Ok(bytes) => state.block_store.by_hash@.contains_key(hash@) && bytes@
                == spec_enc_block(state.block_store.by_hash@[hash@]@),
            Err(e) => e == RpcError::NotFound && !state.block_store.by_hash@.contains_key(hash@),
        },
{
    if !meta.check() {
        return Err(RpcError::Forbidden);
    }
    match state.block_store.by_hash.get(hash) {
        Some(b) => Ok(encode_block(b)),
        None => Err(RpcError::NotFound),
    }
}

/// A recipient's seen-transaction counter, rendered in decimal.
pub fn get_account(state: &NodeState, meta: &Meta, recipient: &Vec<u8>) -> (r: Result<
    Vec<u8>,
    RpcError,
>)
    requires
        state.wf(),
    ensures
        !meta.spec_authorized() ==> r == Result::<Vec<u8>, RpcError>::Err(RpcError::Forbidden),
        meta.spec_authorized() ==> match r {
            Ok(bytes) => state.accounts@.contains_key(recipient@) && bytes@ == spec_decimal(
                state.accounts@[recipient@],
            ),
            Err(e) => e == RpcError::NotFound && !state.accounts@.contains_key(recipient@),
        },
{
    if !meta.check() {
        return Err(RpcError::Forbidden);
    }
    match state.accounts.get(recipient) {
        Some(count) => Ok(u64_to_decimal(*count)),
        None => Err(RpcError::NotFound),
    }
}

/// The transaction under a hash, from the mempool first, else the
/// transaction store, in its canonical encoding.
pub fn get_transaction(state: &NodeState, meta: &Meta, hash: &Vec<u8>) -> (r: Result<
    Vec<u8>,
    RpcError,
>)
    requires
        state.wf(),
    ensures
        !meta.spec_authorized() ==> r == Result::<Vec<u8>, RpcError>::Err(RpcError::Forbidden),
        meta.spec_authorized() ==> match r {
            Ok(bytes) => (state.mempool@.contains_key(hash@) && bytes@ == spec_enc_tx(
                state.mempool@[hash@]@,
            )) || (!state.mempool@.contains_key(hash@) && state.tx_store@.contains_key(hash@)
                && bytes@ == spec_enc_tx(state.tx_store@[hash@]@)),
            Err(e) => e == RpcError::NotFound && !state.mempool@.contains_key(hash@)
                && !state.tx_store@.contains_key(hash@),
        },
{
    if !meta.check() {
        return Err(RpcError::Forbidden);
    }
    match state.mempool.get(hash) {
        Some(t) => Ok(encode_transaction(t)),
        None => match state.tx_store.get(hash) {
            Some(t) => Ok(encode_transaction(t)),
            None => Err(RpcError::NotFound),
        },
    }
}

} // verus!
