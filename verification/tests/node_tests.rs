use nemezis::block::{decode_block, encode_block, Block};
use nemezis::bytes::hex_encode;
use nemezis::conset::{encode_settings, ConsensusSettings};
use nemezis::crypto::Keypair;
use nemezis::genesis::generate_nemezis_block;
use nemezis::node::{BlockOutcome, NodeState, TxIngest, TxOutcome};
use nemezis::rpc::{block_by_height, get_account, get_transaction, Meta, RpcError};
use nemezis::syncmsg::{decode_sync, encode_sync, SyncType};
use nemezis::tx::{decode_transaction, encode_transaction, Transaction, TxBody};

fn keypair(seed: u8) -> Keypair {
    Keypair::from_secret(vec![seed; 32])
}

fn fresh_node(seed: u8, settings: ConsensusSettings) -> NodeState {
    let keys = keypair(seed);
    let (genesis, _) = generate_nemezis_block(&keys, 1000);
    NodeState::new(keys, settings, genesis)
}

fn tx_to(keys: &Keypair, recipient: Vec<u8>, data: &[u8]) -> Transaction {
    Transaction::new(TxBody::new(recipient, data.to_vec()), keys)
}

fn meta(token: &str, sent: Option<&str>) -> Meta {
    Meta { auth: sent.map(|s| s.to_string()), token: token.to_string() }
}

/// Drive a block through a node, resolving pubkeys and missing
/// transactions from the proposing node, the way the outer loop would.
fn deliver_block(to: &mut NodeState, from: &NodeState, bytes: &Vec<u8>) -> BlockOutcome {
    loop {
        match to.handle_block_bytes(bytes) {
            BlockOutcome::NeedPubkey(h) => {
                let pk = from
                    .handle_pubkey_request(&h)
                    .unwrap_or_else(|| from.keys.pk.clone());
                to.learn_pubkey(h, pk);
            }
            BlockOutcome::NeedTxes(hs) => {
                for h in hs {
                    let req = encode_sync(&SyncType::TransactionAtHash(h));
                    let reply = from
                        .handle_sync_request(&req)
                        .expect("the proposer holds its own transactions");
                    match decode_sync(&reply) {
                        Some(SyncType::Transaction(tb)) => {
                            let t = nemezis::tx::decode_transaction(&tb).expect("valid bytes");
                            assert!(to.admit_synced_tx(t, &from.keys.pk_hash));
                        }
                        _ => panic!("expected a transaction reply"),
                    }
                }
            }
            other => return other,
        }
    }
}

#[test]
fn genesis_block_shape() {
    let keys = keypair(3);
    let (genesis, gen_tx) = generate_nemezis_block(&keys, 777);
    assert_eq!(genesis.hashed.data.height, 0);
    assert_eq!(genesis.hashed.data.timestamp, 777);
    assert_eq!(genesis.hashed.data.txes.len(), 1);
    assert_eq!(genesis.hashed.data.txes[0], gen_tx.hash());
    assert_eq!(gen_tx.body.recipient, vec![0u8; 32]);
    assert_eq!(
        gen_tx.body.data,
        encode_settings(&ConsensusSettings::default())
    );
    assert!(genesis.verify(&keys.pk));
    // persisted and reloaded, the genesis block is byte-equal
    let stored = encode_block(&genesis);
    let reloaded = decode_block(&stored).expect("genesis reloads");
    assert_eq!(encode_block(&reloaded), stored);
}

#[test]
fn single_tx_block_proposal() {
    let mut node = fresh_node(3, ConsensusSettings { tx_limit: 1, size_limit: 1 << 20, time_limit: 1 << 20 });
    let genesis_hash = node.head.hashed.hash.clone();
    let t1 = tx_to(&node.keys, vec![0u8; 32], b"hello");
    let bytes = encode_transaction(&t1);
    match node.handle_transaction_bytes(&bytes) {
        TxIngest::Done(TxOutcome::Admitted) => {}
        _ => panic!("own transaction should be admitted"),
    }
    assert!(node.should_propose(2000));
    let b = node.propose_block(2000);
    assert_eq!(b.hashed.data.height, 1);
    assert_eq!(node.block_height, 1);
    assert_eq!(b.hashed.data.prev_hash, hex_encode(&genesis_hash));
    assert_eq!(b.hashed.data.txes, vec![t1.hash()]);
    assert!(b.verify(&node.keys.pk));
    // mempool/store disjointness after the commit
    assert!(node.mempool_transaction(&t1.hash()).is_none());
    let m = meta("token", Some("token"));
    let stored = get_transaction(&node, &m, &t1.hash()).expect("committed tx is stored");
    assert_eq!(stored, encode_transaction(&t1));
}

#[test]
fn proposal_lists_hashes_sorted() {
    let mut node = fresh_node(3, ConsensusSettings::default());
    for i in 0..5u8 {
        let t = tx_to(&node.keys, vec![i; 32], &[i, i + 1]);
        match node.handle_transaction_bytes(&encode_transaction(&t)) {
            TxIngest::Done(TxOutcome::Admitted) => {}
            _ => panic!("admitted"),
        }
    }
    let b = node.propose_block(5000);
    let txes = &b.hashed.data.txes;
    assert_eq!(txes.len(), 5);
    for w in txes.windows(2) {
        assert!(w[0] < w[1], "proposed hashes must ascend");
    }
}

#[test]
fn accounts_count_seen_transactions() {
    let mut node = fresh_node(3, ConsensusSettings::default());
    let recipient = vec![5u8; 32];
    let t1 = tx_to(&node.keys, recipient.clone(), b"one");
    let t2 = tx_to(&node.keys, recipient.clone(), b"two");
    node.handle_transaction_bytes(&encode_transaction(&t1));
    // a duplicate of t1 must not bump the counter
    node.handle_transaction_bytes(&encode_transaction(&t1));
    node.handle_transaction_bytes(&encode_transaction(&t2));
    let m = meta("tk", Some("tk"));
    let count = get_account(&node, &m, &recipient).expect("counter exists");
    assert_eq!(count, b"2".to_vec());
}

#[test]
fn dual_node_catch_up() {
    let keys_a = keypair(3);
    let (genesis, _) = generate_nemezis_block(&keys_a, 1000);
    let settings = ConsensusSettings::default();
    let mut a = NodeState::new(keys_a, settings, decode_block(&encode_block(&genesis)).unwrap());
    let mut b = NodeState::new(keypair(4), settings, decode_block(&encode_block(&genesis)).unwrap());

    let mut all_txes: Vec<Transaction> = Vec::new();
    let batches: Vec<Vec<&[u8]>> = vec![
        vec![&b"t1"[..]],
        vec![&b"t2"[..], &b"t3"[..]],
        vec![&b"t4"[..]],
    ];
    let mut now = 2000u64;
    for batch in batches {
        for data in batch {
            let t = tx_to(&a.keys, vec![1u8; 32], data);
            all_txes.push(decode_transaction(&encode_transaction(&t)).unwrap());
            match a.handle_transaction_bytes(&encode_transaction(&t)) {
                TxIngest::Done(TxOutcome::Admitted) => {}
                _ => panic!("admitted"),
            }
        }
        a.propose_block(now);
        now += 1;
    }
    assert_eq!(a.block_height, 3);

    // B catches up by querying A, exactly as the synchronizer would.
    let remote_tip = {
        let req = encode_sync(&SyncType::GetHeight);
        let reply = a.handle_sync_request(&req).unwrap();
        match decode_sync(&reply) {
            Some(SyncType::Height(h)) => h,
            _ => panic!("expected a height reply"),
        }
    };
    assert_eq!(remote_tip, 3);
    let mut heights_seen = Vec::new();
    while let Some(req) = b.next_sync_request(remote_tip) {
        let hash_reply = a.handle_sync_request(&encode_sync(&req)).unwrap();
        let hash = match decode_sync(&hash_reply) {
            Some(SyncType::BlockHash(h)) => h,
            _ => panic!("expected a block hash"),
        };
        let block_reply = a
            .handle_sync_request(&encode_sync(&SyncType::BlockAtHash(hash)))
            .unwrap();
        let block_bytes = match decode_sync(&block_reply) {
            Some(SyncType::Block(bb)) => bb,
            _ => panic!("expected a block"),
        };
        match deliver_block(&mut b, &a, &block_bytes) {
            BlockOutcome::Committed => {}
            _ => panic!("catch-up block should commit"),
        }
        heights_seen.push(b.block_height);
    }
    assert_eq!(b.block_height, 3);
    // chain monotonicity across the ingests
    for w in heights_seen.windows(2) {
        assert!(w[0] <= w[1]);
    }
    // the stores agree byte for byte
    let m = meta("tk", Some("tk"));
    for t in &all_txes {
        let from_a = get_transaction(&a, &m, &t.hash()).expect("a holds it");
        let from_b = get_transaction(&b, &m, &t.hash()).expect("b holds it");
        assert_eq!(from_a, from_b);
    }
    for h in 1..=3u64 {
        let ba = block_by_height(&a, &m, h).expect("a serves it");
        let bb = block_by_height(&b, &m, h).expect("b serves it");
        assert_eq!(ba, bb);
    }
}

#[test]
fn missing_tx_fetch_on_ingest() {
    let keys_a = keypair(3);
    let (genesis, _) = generate_nemezis_block(&keys_a, 1000);
    let settings = ConsensusSettings::default();
    let mut a = NodeState::new(keys_a, settings, decode_block(&encode_block(&genesis)).unwrap());
    let mut b = NodeState::new(keypair(4), settings, decode_block(&encode_block(&genesis)).unwrap());

    let t5 = tx_to(&a.keys, vec![2u8; 32], b"t5");
    a.handle_transaction_bytes(&encode_transaction(&t5));
    let blk = a.propose_block(2000);
    let blk_bytes = encode_block(&blk);

    // first pass: B lacks A's key, then lacks T5
    let h = match b.handle_block_bytes(&blk_bytes) {
        BlockOutcome::NeedPubkey(h) => h,
        _ => panic!("B has never seen A's key"),
    };
    b.learn_pubkey(h, a.keys.pk.clone());
    let missing = match b.handle_block_bytes(&blk_bytes) {
        BlockOutcome::NeedTxes(hs) => hs,
        _ => panic!("B has never seen T5"),
    };
    assert_eq!(missing, vec![t5.hash()]);
    // a timed-out fetch leaves B unchanged and the block uncommitted
    assert_eq!(b.block_height, 0);
    assert!(b.mempool_transaction(&t5.hash()).is_none());
    // the fetch succeeds: B verifies T5 under the proposer's key, commits
    assert!(b.admit_synced_tx(
        decode_transaction(&encode_transaction(&t5)).unwrap(),
        &a.keys.pk_hash
    ));
    match b.handle_block_bytes(&blk_bytes) {
        BlockOutcome::Committed => {}
        _ => panic!("all transactions at hand: the block commits"),
    }
    assert_eq!(b.block_height, 1);
    assert!(b.mempool_transaction(&t5.hash()).is_none());
}

#[test]
fn tie_break_prefers_smaller_signature() {
    let settings = ConsensusSettings::default();
    // find two keys whose signatures over the same content differ in the
    // first byte
    let mut chosen: Option<(u8, u8)> = None;
    'outer: for s1 in 10..20u8 {
        for s2 in (s1 + 1)..20u8 {
            let keys_a = keypair(s1);
            let (genesis, _) = generate_nemezis_block(&keys_a, 1000);
            let t = tx_to(&keys_a, vec![1u8; 32], b"tie");
            let prev = hex_encode(&genesis.hashed.hash);
            let b1 = Block::new(prev.clone(), vec![t.hash()], &keys_a, 1, 2000);
            let b2 = Block::new(prev, vec![t.hash()], &keypair(s2), 1, 2000);
            assert_eq!(b1.hashed.hash, b2.hashed.hash);
            if b1.signature[0] != b2.signature[0] {
                chosen = Some((s1, s2));
                break 'outer;
            }
        }
    }
    let (s1, s2) = chosen.expect("some pair of signatures differs in byte 0");

    let keys_a = keypair(s1);
    let (genesis, _) = generate_nemezis_block(&keys_a, 1000);
    let mut node = NodeState::new(
        keypair(9),
        settings,
        decode_block(&encode_block(&genesis)).unwrap(),
    );
    let t = tx_to(&keys_a, vec![1u8; 32], b"tie");
    node.learn_pubkey(keys_a.pk_hash.clone(), keys_a.pk.clone());
    assert!(node.admit_synced_tx(
        decode_transaction(&encode_transaction(&t)).unwrap(),
        &keys_a.pk_hash,
    ));
    let prev = hex_encode(&genesis.hashed.hash);
    let b1 = Block::new(prev.clone(), vec![t.hash()], &keys_a, 1, 2000);
    let b2 = Block::new(prev, vec![t.hash()], &keypair(s2), 1, 2000);
    let (small, large) = if b1.signature[0] < b2.signature[0] { (b1, b2) } else { (b2, b1) };

    // the block under the larger signature arrives first and commits
    let large_signer = if large.proposer_pub == keypair(s1).pk_hash { keypair(s1) } else { keypair(s2) };
    let small_signer = if small.proposer_pub == keypair(s1).pk_hash { keypair(s1) } else { keypair(s2) };
    node.learn_pubkey(large.proposer_pub.clone(), large_signer.pk.clone());
    node.learn_pubkey(small.proposer_pub.clone(), small_signer.pk.clone());
    match node.handle_block_bytes(&encode_block(&large)) {
        BlockOutcome::Committed => {}
        _ => panic!("first arrival commits"),
    }
    // the same block under the smaller signature replaces the head
    match node.handle_block_bytes(&encode_block(&small)) {
        BlockOutcome::TieBreak => {}
        _ => panic!("smaller first signature byte wins"),
    }
    assert_eq!(node.head.signature, small.signature);
    // what the store serves under that height is the preferred block
    let m = meta("tk", Some("tk"));
    let served = block_by_height(&node, &m, 1).expect("height 1 is stored");
    assert_eq!(served, encode_block(&small));
    // feeding the larger one again changes nothing
    match node.handle_block_bytes(&encode_block(&large)) {
        BlockOutcome::Ignored => {}
        _ => panic!("the larger signature does not win back"),
    }
    assert_eq!(node.head.signature, small.signature);
}

#[test]
fn repropose_replaces_head_without_advancing_height() {
    let keys_a = keypair(3);
    let (genesis, _) = generate_nemezis_block(&keys_a, 1000);
    let settings = ConsensusSettings::default();
    let mut node = NodeState::new(
        keypair(9),
        settings,
        decode_block(&encode_block(&genesis)).unwrap(),
    );
    let t = tx_to(&keys_a, vec![1u8; 32], b"re");
    node.learn_pubkey(keys_a.pk_hash.clone(), keys_a.pk.clone());
    assert!(node.admit_synced_tx(
        decode_transaction(&encode_transaction(&t)).unwrap(),
        &keys_a.pk_hash,
    ));
    let prev = hex_encode(&genesis.hashed.hash);
    let b1 = Block::new(prev.clone(), vec![t.hash()], &keys_a, 1, 2000);
    let b2 = Block::new(prev, vec![t.hash()], &keys_a, 1, 2001);
    match node.handle_block_bytes(&encode_block(&b1)) {
        BlockOutcome::Committed => {}
        _ => panic!("first proposal commits"),
    }
    match node.handle_block_bytes(&encode_block(&b2)) {
        BlockOutcome::Reproposed => {}
        _ => panic!("later timestamp over the same content re-proposes"),
    }
    assert_eq!(node.block_height, 1);
    assert_eq!(node.head.hashed.data.timestamp, 2001);
}

#[test]
fn sync_service_replies() {
    let mut node = fresh_node(3, ConsensusSettings::default());
    let t = tx_to(&node.keys, vec![1u8; 32], b"q");
    node.handle_transaction_bytes(&encode_transaction(&t));

    let h = node.handle_sync_request(&encode_sync(&SyncType::GetHeight)).unwrap();
    assert!(matches!(decode_sync(&h), Some(SyncType::Height(0))));

    let g = node.handle_sync_request(&encode_sync(&SyncType::GetNemezis)).unwrap();
    match decode_sync(&g) {
        Some(SyncType::Block(bb)) => {
            let blk = decode_block(&bb).unwrap();
            assert_eq!(blk.hashed.data.height, 0);
        }
        _ => panic!("expected the genesis block"),
    }

    // a pooled transaction is served from the mempool
    let tq = node
        .handle_sync_request(&encode_sync(&SyncType::TransactionAtHash(t.hash())))
        .unwrap();
    match decode_sync(&tq) {
        Some(SyncType::Transaction(tb)) => assert_eq!(tb, encode_transaction(&t)),
        _ => panic!("expected the transaction"),
    }

    // unknown height: no reply
    assert!(node
        .handle_sync_request(&encode_sync(&SyncType::AtHeight(9)))
        .is_none());
    // undecodable request: no reply
    assert!(node.handle_sync_request(&vec![200u8, 1, 2]).is_none());
}

#[test]
fn rpc_auth_is_enforced() {
    let node = fresh_node(3, ConsensusSettings::default());
    let wrong = meta("secret", Some("guess"));
    let missing = meta("secret", None);
    let right = meta("secret", Some("secret"));
    assert_eq!(block_by_height(&node, &wrong, 0), Err(RpcError::Forbidden));
    assert_eq!(block_by_height(&node, &missing, 0), Err(RpcError::Forbidden));
    let ok = block_by_height(&node, &right, 0).expect("genesis is stored");
    let blk = decode_block(&ok).unwrap();
    assert_eq!(blk.hashed.data.height, 0);
    assert_eq!(block_by_height(&node, &right, 5), Err(RpcError::NotFound));
    assert_eq!(
        get_account(&node, &right, &vec![9u8; 32]),
        Err(RpcError::NotFound)
    );
    assert_eq!(
        get_transaction(&node, &right, &vec![9u8; 32]),
        Err(RpcError::NotFound)
    );
}

#[test]
fn limiters_fire_on_each_threshold() {
    let c = ConsensusSettings { tx_limit: 3, size_limit: 100, time_limit: 10 };
    // nothing reached
    assert!(!c.check_limiters(2, 99, 1000, 1009));
    // count
    assert!(c.check_limiters(3, 0, 1000, 1000));
    // byte size
    assert!(c.check_limiters(0, 100, 1000, 1000));
    // elapsed time
    assert!(c.check_limiters(0, 0, 1000, 1010));
    // a clock that went back counts as no time elapsed
    assert!(!c.check_limiters(0, 0, 1000, 50));
}

#[test]
fn invalid_arrivals_are_dropped() {
    let mut node = fresh_node(3, ConsensusSettings::default());
    // undecodable transaction bytes
    match node.handle_transaction_bytes(&vec![1, 2, 3]) {
        TxIngest::Dropped => {}
        _ => panic!("junk bytes are dropped"),
    }
    // a tampered transaction no longer verifies
    let mut t = tx_to(&node.keys, vec![1u8; 32], b"pay");
    t.body.data = b"PAY".to_vec();
    match node.handle_transaction_bytes(&encode_transaction(&t)) {
        TxIngest::Done(TxOutcome::Invalid) => {}
        _ => panic!("a tampered transaction is invalid"),
    }
    // a tampered block is ignored and moves nothing
    let good = tx_to(&node.keys, vec![1u8; 32], b"ok");
    node.handle_transaction_bytes(&encode_transaction(&good));
    let blk = node.propose_block(2000);
    assert_eq!(node.block_height, 1);
    let mut evil = decode_block(&encode_block(&blk)).unwrap();
    evil.hashed.data.height = 2;
    match node.handle_block_bytes(&encode_block(&evil)) {
        BlockOutcome::Ignored => {}
        _ => panic!("a block whose hash no longer matches is ignored"),
    }
    assert_eq!(node.block_height, 1);
    // undecodable block bytes
    match node.handle_block_bytes(&vec![9, 9]) {
        BlockOutcome::Ignored => {}
        _ => panic!("junk bytes are ignored"),
    }
}

#[test]
fn highest_height_picks_the_tip() {
    assert_eq!(NodeState::highest_height(&vec![]), 0);
    assert_eq!(NodeState::highest_height(&vec![2, 7, 3]), 7);
    assert_eq!(NodeState::highest_height(&vec![0]), 0);
}

#[test]
fn chat_wraps_bytes_as_zero_recipient_transaction() {
    let node = fresh_node(3, ConsensusSettings::default());
    let t = node.chat_transaction(b"hi there".to_vec());
    assert_eq!(t.body.recipient, vec![0u8; 32]);
    assert_eq!(t.body.data, b"hi there".to_vec());
    assert!(t.verify(&node.keys.pk));
}

#[test]
fn pubkey_announcement_is_cached_and_answered() {
    let mut node = fresh_node(3, ConsensusSettings::default());
    let other = keypair(5);
    // a new key is cached, and the node re-announces its own
    let own = node.handle_pubkey_announcement(other.pk.clone());
    assert_eq!(own, Some(node.keys.pk.clone()));
    // the same key again is known: nothing to do
    assert_eq!(node.handle_pubkey_announcement(other.pk.clone()), None);
    // a peer can now look it up by its digest
    assert_eq!(node.handle_pubkey_request(&other.pk_hash), Some(other.pk.clone()));
    assert_eq!(node.handle_pubkey_request(&vec![1u8; 32]), None);
}
