//! Consensus settings: the thresholds that authorize a block proposal, and
//! their canonical encoding, which the genesis transaction carries so that
//! all nodes agree on them.

use vstd::prelude::*;
use crate::bytes::{spec_u64_le, spec_le_u64, write_u64_le};
use crate::codec::{parse_u64, lemma_le_u64_of_enc};

verus! {

/// The proposal limiters: a block is proposed as soon as the mempool holds
/// `tx_limit` transactions, or `size_limit` encoded bytes, or `time_limit`
/// seconds have passed since the head block's timestamp.
#[derive(Clone, Copy, Debug, PartialEq, Eq, Structural)]
pub struct ConsensusSettings {
    pub tx_limit: u64,
    pub size_limit: u64,
    pub time_limit: u64,
}

impl Default for ConsensusSettings {
    /// The network defaults, serialized into the genesis transaction.
    fn default() -> (r: ConsensusSettings)
        ensures
            r == ConsensusSettings::spec_default(),
    {
        ConsensusSettings { tx_limit: 128, size_limit: 1000000, time_limit: 600 }
    }
}

/// Seconds elapsed from `then` to `now`, zero when the clock went back.
pub open spec fn spec_elapsed(then: u64, now: u64) -> int {
    if now >= then {
        now - then
    } else {
        0
    }
}

/// Whether any limiter fires for the given mempool census.
pub open spec fn spec_limiters_fire(
    c: ConsensusSettings,
    mempool_len: int,
    pool_size: int,
    head_timestamp: u64,
    now: u64,
) -> bool {
    ||| mempool_len >= c.tx_limit
    ||| pool_size >= c.size_limit
    ||| spec_elapsed(head_timestamp, now) >= c.time_limit
}

/// The canonical encoding: the three limits, little endian.
pub open spec fn spec_enc_settings(c: ConsensusSettings) -> Seq<u8> {
    spec_u64_le(c.tx_limit) + spec_u64_le(c.size_limit) + spec_u64_le(c.time_limit)
}

impl ConsensusSettings {
    /// The network defaults.
    pub open spec fn spec_default() -> ConsensusSettings {
        ConsensusSettings { tx_limit: 128, size_limit: 1000000, time_limit: 600 }
    }

    /// Decide whether to propose: any threshold reached fires.
    pub fn check_limiters(
        &self,
        mempool_len: usize,
        pool_size: usize,
        head_timestamp: u64,
        now: u64,
    ) -> (r: bool)
        ensures
            r == spec_limiters_fire(
                *self,
                mempool_len as int,
                pool_size as int,
                head_timestamp,
                now,
            ),
    {
        if mempool_len as u64 >= self.tx_limit {
            return true;
        }
        if pool_size as u64 >= self.size_limit {
            return true;
        }
        let elapsed = if now >= head_timestamp {
            now - head_timestamp
        } else {
            0
        };
        elapsed >= self.time_limit
    }
}

/// Render the settings in the canonical encoding.
pub fn encode_settings(c: &ConsensusSettings) -> (r: Vec<u8>)
    ensures
        r@ == spec_enc_settings(*c),
{
    let mut out: Vec<u8> = Vec::new();
    write_u64_le(&mut out, c.tx_limit);
    write_u64_le(&mut out, c.size_limit);
    write_u64_le(&mut out, c.time_limit);
    assert(out@ =~= spec_enc_settings(*c));
    out
}

/// Decode a complete canonical encoding of settings: exactly 24 bytes.
pub fn decode_settings(s: &Vec<u8>) -> (r: Option<ConsensusSettings>)
    ensures
        match r {
            Some(c) => s@ == spec_enc_settings(c),
            None => forall|c: ConsensusSettings| s@ != spec_enc_settings(c),
        },
{
    if s.len() != 24 {
        proof {
            assert forall|c: ConsensusSettings| s@ != spec_enc_settings(c) by {
                assert(spec_enc_settings(c).len() == 24);
            }
        }
        return None;
    }
    let tx_limit = match parse_u64(s, 0) {
        Some(p) => p.0,
        None => {
            return None;
        },
    };
    let size_limit = match parse_u64(s, 8) {
        Some(p) => p.0,
        None => {
            return None;
        },
    };
    let time_limit = match parse_u64(s, 16) {
        Some(p) => p.0,
        None => {
            return None;
        },
    };
    let c = ConsensusSettings { tx_limit, size_limit, time_limit };
    proof {
        lemma_settings_enc_reads_back(c, s@);
    }
    Some(c)
}

/// The three little-endian reads of a canonical settings encoding give the
/// three fields back.
proof fn lemma_enc_settings_reads(c: ConsensusSettings)
    ensures
        spec_enc_settings(c).len() == 24,
        spec_le_u64(spec_enc_settings(c)) == c.tx_limit,
        spec_le_u64(spec_enc_settings(c).skip(8)) == c.size_limit,
        spec_le_u64(spec_enc_settings(c).skip(16)) == c.time_limit,
{
    let e = spec_enc_settings(c);
    assert(e =~= spec_u64_le(c.tx_limit) + (spec_u64_le(c.size_limit) + spec_u64_le(
        c.time_limit,
    )));
    lemma_le_u64_of_enc(c.tx_limit, spec_u64_le(c.size_limit) + spec_u64_le(c.time_limit));
    assert(e.skip(8) =~= spec_u64_le(c.size_limit) + spec_u64_le(c.time_limit));
    lemma_le_u64_of_enc(c.size_limit, spec_u64_le(c.time_limit));
    assert(e.skip(16) =~= spec_u64_le(c.time_limit) + Seq::<u8>::empty());
    lemma_le_u64_of_enc(c.time_limit, Seq::<u8>::empty());
}

/// If the three reads of a 24-byte string give the fields of `c`, the
/// string is the canonical encoding of `c`.
proof fn lemma_settings_enc_reads_back(c: ConsensusSettings, s: Seq<u8>)
    requires
        s.len() == 24,
        c.tx_limit == spec_le_u64(s.skip(0)),
        c.size_limit == spec_le_u64(s.skip(8)),
        c.time_limit == spec_le_u64(s.skip(16)),
    ensures
        s == spec_enc_settings(c),
{
    let e = spec_enc_settings(c);
    lemma_enc_settings_reads(c);
    assert(s.skip(0) =~= s);
    lemma_read_bytes_eq(s, e);
}

/// Two 24-byte strings whose three little-endian reads agree are equal.
proof fn lemma_read_bytes_eq(s: Seq<u8>, e: Seq<u8>)
    requires
        s.len() == 24,
        e.len() == 24,
        spec_le_u64(s) == spec_le_u64(e),
        spec_le_u64(s.skip(8)) == spec_le_u64(e.skip(8)),
        spec_le_u64(s.skip(16)) == spec_le_u64(e.skip(16)),
    ensures
        s == e,
{
    lemma_le_u64_determines_bytes(s, e);
    lemma_le_u64_determines_bytes(s.skip(8), e.skip(8));
    lemma_le_u64_determines_bytes(s.skip(16), e.skip(16));
    assert(s =~= e);
}

/// Two byte strings of at least 8 bytes with the same little-endian read
/// agree on their first 8 bytes.
proof fn lemma_le_u64_determines_bytes(s: Seq<u8>, e: Seq<u8>)
    requires
        s.len() >= 8,
        e.len() >= 8,
        spec_le_u64(s) == spec_le_u64(e),
    ensures
        forall|i: int| 0 <= i < 8 ==> s[i] == e[i],
{
    let a0 = s[0];
    let a1 = s[1];
    let a2 = s[2];
    let a3 = s[3];
    let a4 = s[4];
    let a5 = s[5];
    let a6 = s[6];
    let a7 = s[7];
    let b0 = e[0];
    let b1 = e[1];
    let b2 = e[2];
    let b3 = e[3];
    let b4 = e[4];
    let b5 = e[5];
    let b6 = e[6];
    let b7 = e[7];
    assert(((a0 as u64) | ((a1 as u64) << 8u64) | ((a2 as u64) << 16u64) | ((a3 as u64) << 24u64)
        | ((a4 as u64) << 32u64) | ((a5 as u64) << 40u64) | ((a6 as u64) << 48u64) | ((a7 as u64)
        << 56u64)) == ((b0 as u64) | ((b1 as u64) << 8u64) | ((b2 as u64) << 16u64) | ((b3 as u64)
        << 24u64) | ((b4 as u64) << 32u64) | ((b5 as u64) << 40u64) | ((b6 as u64) << 48u64) | ((
    b7 as u64) << 56u64)) ==> a0 == b0 && a1 == b1 && a2 == b2 && a3 == b3 && a4 == b4 && a5 == b5
        && a6 == b6 && a7 == b7) by (bit_vector);
    assert forall|i: int| 0 <= i < 8 implies s[i] == e[i] by {
        if i == 0 {
        } else if i == 1 {
        } else if i == 2 {
        } else if i == 3 {
        } else if i == 4 {
        } else if i == 5 {
        } else if i == 6 {
        } else {
        }
    }
}


} // verus!
