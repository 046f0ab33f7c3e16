//! The tagged bodies of the synchronization protocol: peer queries and
//! their replies, with a strict canonical codec.

use vstd::prelude::*;
use crate::bytes::{spec_u64_le, spec_le_u64, write_u64_le};
use crate::codec::{
    spec_enc_bytes, spec_parse_bytes, write_bytes, parse_bytes, parse_fixed, parse_u64,
    lemma_parse_bytes_round_trip, lemma_le_u64_of_enc, copy_range,
};

verus! {

/// A synchronization request or reply.
pub enum SyncType {
    /// Ask a peer for its chain height.
    GetHeight,
    /// Ask a peer for its genesis block.
    GetNemezis,
    /// Ask for the hash of the block at a height.
    AtHeight(u64),
    /// Ask for the transaction with a 32-byte hash.
    TransactionAtHash(Vec<u8>),
    /// Ask for the block with a 32-byte hash.
    BlockAtHash(Vec<u8>),
    /// Reply: the chain height.
    Height(u64),
    /// Reply: an encoded transaction.
    Transaction(Vec<u8>),
    /// Reply: an encoded block.
    Block(Vec<u8>),
    /// Reply: a block hash.
    BlockHash(Vec<u8>),
}

/// The mathematical content of a synchronization message.
pub enum SyncView {
    GetHeight,
    GetNemezis,
    AtHeight(u64),
    TransactionAtHash(Seq<u8>),
    BlockAtHash(Seq<u8>),
    Height(u64),
    Transaction(Seq<u8>),
    Block(Seq<u8>),
    BlockHash(Seq<u8>),
}

impl View for SyncType {
    type V = SyncView;

    open spec fn view(&self) -> SyncView {
        match self {
            SyncType::GetHeight => SyncView::GetHeight,
            SyncType::GetNemezis => SyncView::GetNemezis,
            SyncType::AtHeight(h) => SyncView::AtHeight(*h),
            SyncType::TransactionAtHash(h) => SyncView::TransactionAtHash(h@),
            SyncType::BlockAtHash(h) => SyncView::BlockAtHash(h@),
            SyncType::Height(h) => SyncView::Height(*h),
            SyncType::Transaction(b) => SyncView::Transaction(b@),
            SyncType::Block(b) => SyncView::Block(b@),
            SyncType::BlockHash(b) => SyncView::BlockHash(b@),
        }
    }
}

/// Structural well-formedness: hashes are 32 bytes, payloads encodable.
pub open spec fn spec_sync_wf(v: SyncView) -> bool {
    match v {
        SyncView::GetHeight => true,
        SyncView::GetNemezis => true,
        SyncView::AtHeight(_) => true,
        SyncView::TransactionAtHash(h) => h.len() == 32,
        SyncView::BlockAtHash(h) => h.len() == 32,
        SyncView::Height(_) => true,
        SyncView::Transaction(b) => b.len() <= u64::MAX,
        SyncView::Block(b) => b.len() <= u64::MAX,
        SyncView::BlockHash(b) => b.len() <= u64::MAX,
    }
}

/// The canonical encoding: a tag byte, then the payload.
pub open spec fn spec_enc_sync(v: SyncView) -> Seq<u8> {
    match v {
        SyncView::GetHeight => seq![0u8],
        SyncView::GetNemezis => seq![1u8],
        SyncView::AtHeight(h) => seq![2u8] + spec_u64_le(h),
        SyncView::TransactionAtHash(h) => seq![3u8] + h,
        SyncView::BlockAtHash(h) => seq![4u8] + h,
        SyncView::Height(h) => seq![5u8] + spec_u64_le(h),
        SyncView::Transaction(b) => seq![6u8] + spec_enc_bytes(b),
        SyncView::Block(b) => seq![7u8] + spec_enc_bytes(b),
        SyncView::BlockHash(b) => seq![8u8] + spec_enc_bytes(b),
    }
}

/// Strict parse of a complete message: the whole input must be consumed.
pub open spec fn spec_parse_sync(s: Seq<u8>) -> Option<SyncView> {
    if s.len() < 1 {
        None
    } else {
        let rest = s.skip(1);
        if s[0] == 0 {
            if rest.len() == 0 {
                Some(SyncView::GetHeight)
            } else {
                None
            }
        } else if s[0] == 1 {
            if rest.len() == 0 {
                Some(SyncView::GetNemezis)
            } else {
                None
            }
        } else if s[0] == 2 {
            if rest.len() == 8 {
                Some(SyncView::AtHeight(spec_le_u64(rest)))
            } else {
                None
            }
        } else if s[0] == 3 {
            if rest.len() == 32 {
                Some(SyncView::TransactionAtHash(rest))
            } else {
                None
            }
        } else if s[0] == 4 {
            if rest.len() == 32 {
                Some(SyncView::BlockAtHash(rest))
            } else {
                None
            }
        } else if s[0] == 5 {
            if rest.len() == 8 {
                Some(SyncView::Height(spec_le_u64(rest)))
            } else {
                None
            }
        } else if s[0] == 6 {
            match spec_parse_bytes(rest) {
                Some((b, n)) => if n == rest.len() {
                    Some(SyncView::Transaction(b))
                } else {
                    None
                },
                None => None,
            }
        } else if s[0] == 7 {
            match spec_parse_bytes(rest) {
                Some((b, n)) => if n == rest.len() {
                    Some(SyncView::Block(b))
                } else {
                    None
                },
                None => None,
            }
        } else if s[0] == 8 {
            match spec_parse_bytes(rest) {
                Some((b, n)) => if n == rest.len() {
                    Some(SyncView::BlockHash(b))
                } else {
                    None
                },
                None => None,
            }
        } else {
            None
        }
    }
}

/// The canonical encoding of a well-formed message parses back to the same
/// message.
pub proof fn lemma_sync_round_trip(v: SyncView)
    requires
        spec_sync_wf(v),
    ensures
        spec_parse_sync(spec_enc_sync(v)) == Some(v),
{
    let s = spec_enc_sync(v);
    match v {
        SyncView::GetHeight => {
            assert(s.skip(1) =~= Seq::<u8>::empty());
        },
        SyncView::GetNemezis => {
            assert(s.skip(1) =~= Seq::<u8>::empty());
        },
        SyncView::AtHeight(h) => {
            assert(s.skip(1) =~= spec_u64_le(h));
            assert(spec_u64_le(h) =~= spec_u64_le(h) + Seq::<u8>::empty());
            lemma_le_u64_of_enc(h, Seq::<u8>::empty());
        },
        SyncView::TransactionAtHash(h) => {
            assert(s.skip(1) =~= h);
        },
        SyncView::BlockAtHash(h) => {
            assert(s.skip(1) =~= h);
        },
        SyncView::Height(h) => {
            assert(s.skip(1) =~= spec_u64_le(h));
            assert(spec_u64_le(h) =~= spec_u64_le(h) + Seq::<u8>::empty());
            lemma_le_u64_of_enc(h, Seq::<u8>::empty());
        },
        SyncView::Transaction(b) => {
            assert(s.skip(1) =~= spec_enc_bytes(b) + Seq::<u8>::empty());
            lemma_parse_bytes_round_trip(b, Seq::<u8>::empty());
        },
        SyncView::Block(b) => {
            assert(s.skip(1) =~= spec_enc_bytes(b) + Seq::<u8>::empty());
            lemma_parse_bytes_round_trip(b, Seq::<u8>::empty());
        },
        SyncView::BlockHash(b) => {
            assert(s.skip(1) =~= spec_enc_bytes(b) + Seq::<u8>::empty());
            lemma_parse_bytes_round_trip(b, Seq::<u8>::empty());
        },
    }
}

/// Render a message in the canonical encoding.
pub fn encode_sync(m: &SyncType) -> (r: Vec<u8>)
    ensures
        r@ == spec_enc_sync(m@),
{
    let mut out: Vec<u8> = Vec::new();
    match m {
        SyncType::GetHeight => {
            out.push(0);
            assert(out@ =~= spec_enc_sync(m@));
        },
        SyncType::GetNemezis => {
            out.push(1);
            assert(out@ =~= spec_enc_sync(m@));
        },
        SyncType::AtHeight(h) => {
            out.push(2);
            write_u64_le(&mut out, *h);
            assert(out@ =~= spec_enc_sync(m@));
        },
        SyncType::TransactionAtHash(h) => {
            out.push(3);
            out.extend_from_slice(h.as_slice());
            assert(out@ =~= spec_enc_sync(m@));
        },
        SyncType::BlockAtHash(h) => {
            out.push(4);
            out.extend_from_slice(h.as_slice());
            assert(out@ =~= spec_enc_sync(m@));
        },
        SyncType::Height(h) => {
            out.push(5);
            write_u64_le(&mut out, *h);
            assert(out@ =~= spec_enc_sync(m@));
        },
        SyncType::Transaction(b) => {
            out.push(6);
            write_bytes(&mut out, b);
            assert(out@ =~= spec_enc_sync(m@));
        },
        SyncType::Block(b) => {
            out.push(7);
            write_bytes(&mut out, b);
            assert(out@ =~= spec_enc_sync(m@));
        },
        SyncType::BlockHash(b) => {
            out.push(8);
            write_bytes(&mut out, b);
            assert(out@ =~= spec_enc_sync(m@));
        },
    }
    out
}

/// Decode a complete canonical encoding of a message.
pub fn decode_sync(s: &Vec<u8>) -> (r: Option<SyncType>)
    ensures
        match r {
            Some(m) => spec_parse_sync(s@) == Some(m@) && spec_sync_wf(m@),
            None => spec_parse_sync(s@) is None,
        },
{
    let n = s.len();
    if n < 1 {
        return None;
    }
    let tag = s[0];
    let ghost rest = s@.skip(1);
    if tag == 0 {
        if n == 1 {
            Some(SyncType::GetHeight)
        } else {
            None
        }
    } else if tag == 1 {
        if n == 1 {
            Some(SyncType::GetNemezis)
        } else {
            None
        }
    } else if tag == 2 || tag == 5 {
        if n != 9 {
            return None;
        }
        let h = match parse_u64(s, 1) {
            Some(p) => p.0,
            None => {
                return None;
            },
        };
        if tag == 2 {
            Some(SyncType::AtHeight(h))
        } else {
            Some(SyncType::Height(h))
        }
    } else if tag == 3 || tag == 4 {
        if n != 33 {
            return None;
        }
        let h = copy_range(s, 1, 33);
        assert(h@ =~= rest);
        if tag == 3 {
            Some(SyncType::TransactionAtHash(h))
        } else {
            Some(SyncType::BlockAtHash(h))
        }
    } else if tag == 6 || tag == 7 || tag == 8 {
        let (b, np) = match parse_bytes(s, 1) {
            Some(p) => p,
            None => {
                return None;
            },
        };
        if np != n {
            return None;
        }
        if tag == 6 {
            Some(SyncType::Transaction(b))
        } else if tag == 7 {
            Some(SyncType::Block(b))
        } else {
            Some(SyncType::BlockHash(b))
        }
    } else {
        None
    }
}

} // verus!
