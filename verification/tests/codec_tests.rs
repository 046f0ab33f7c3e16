use nemezis::block::{decode_block, encode_block, Block};
use nemezis::bytes::{hex_encode, u64_to_decimal};
use nemezis::conset::{decode_settings, encode_settings, ConsensusSettings};
use nemezis::crypto::{blake2b, Keypair};
use nemezis::merkle::merkle_root;
use nemezis::syncmsg::{decode_sync, encode_sync, SyncType};
use nemezis::tx::{decode_transaction, encode_transaction, Transaction, TxBody};

fn keypair(seed: u8) -> Keypair {
    Keypair::from_secret(vec![seed; 32])
}

fn sample_tx(keys: &Keypair, data: &[u8]) -> Transaction {
    Transaction::new(TxBody::new(vec![9u8; 32], data.to_vec()), keys)
}

#[test]
fn transaction_round_trip() {
    let keys = keypair(7);
    let tx = sample_tx(&keys, b"hello world");
    let enc = encode_transaction(&tx);
    let back = decode_transaction(&enc).expect("canonical encoding decodes");
    assert_eq!(back.body.recipient, tx.body.recipient);
    assert_eq!(back.body.data, tx.body.data);
    assert_eq!(back.proposer_pub, tx.proposer_pub);
    assert_eq!(back.signature, tx.signature);
    // hash is stable across an encode/decode round trip
    assert_eq!(tx.hash(), back.hash());
    // and a second encode gives the same bytes
    assert_eq!(encode_transaction(&back), enc);
}

#[test]
fn transaction_decode_rejects_trailing_bytes() {
    let keys = keypair(7);
    let tx = sample_tx(&keys, b"x");
    let mut enc = encode_transaction(&tx);
    enc.push(0);
    assert!(decode_transaction(&enc).is_none());
}

#[test]
fn transaction_decode_rejects_truncation() {
    let keys = keypair(7);
    let tx = sample_tx(&keys, b"abcdef");
    let mut enc = encode_transaction(&tx);
    enc.pop();
    assert!(decode_transaction(&enc).is_none());
    assert!(decode_transaction(&Vec::new()).is_none());
}

#[test]
fn transaction_verifies_only_under_signer_key() {
    let keys = keypair(7);
    let other = keypair(8);
    let tx = sample_tx(&keys, b"pay");
    assert!(tx.verify(&keys.pk));
    assert!(!tx.verify(&other.pk));
}

#[test]
fn block_round_trip() {
    let keys = keypair(7);
    let t1 = sample_tx(&keys, b"a");
    let t2 = sample_tx(&keys, b"b");
    let prev = hex_encode(&blake2b(&vec![0u8; 32]));
    let b = Block::new(prev, vec![t1.hash(), t2.hash()], &keys, 1, 1234);
    let enc = encode_block(&b);
    let back = decode_block(&enc).expect("canonical encoding decodes");
    assert_eq!(back.hashed.data.prev_hash, b.hashed.data.prev_hash);
    assert_eq!(back.hashed.data.txes, b.hashed.data.txes);
    assert_eq!(back.hashed.data.merkle_root, b.hashed.data.merkle_root);
    assert_eq!(back.hashed.data.height, 1);
    assert_eq!(back.hashed.data.timestamp, 1234);
    assert_eq!(back.hashed.hash, b.hashed.hash);
    assert_eq!(back.proposer_pub, b.proposer_pub);
    assert_eq!(back.signature, b.signature);
    assert_eq!(encode_block(&back), enc);
    assert!(back.verify(&keys.pk));
}

#[test]
fn block_decode_rejects_trailing_bytes() {
    let keys = keypair(7);
    let t1 = sample_tx(&keys, b"a");
    let prev = hex_encode(&blake2b(&vec![0u8; 32]));
    let b = Block::new(prev, vec![t1.hash()], &keys, 1, 1);
    let mut enc = encode_block(&b);
    enc.push(1);
    assert!(decode_block(&enc).is_none());
}

#[test]
fn block_verify_detects_tampering() {
    let keys = keypair(7);
    let t1 = sample_tx(&keys, b"a");
    let prev = hex_encode(&blake2b(&vec![0u8; 32]));
    let mut b = Block::new(prev, vec![t1.hash()], &keys, 1, 1);
    assert!(b.verify(&keys.pk));
    b.hashed.data.timestamp = 2;
    assert!(!b.verify(&keys.pk));
}

#[test]
fn settings_round_trip() {
    let c = ConsensusSettings { tx_limit: 3, size_limit: 9999, time_limit: 60 };
    let enc = encode_settings(&c);
    assert_eq!(enc.len(), 24);
    let back = decode_settings(&enc).expect("24 bytes decode");
    assert_eq!(back, c);
    assert!(decode_settings(&vec![0u8; 23]).is_none());
}

#[test]
fn settings_default_values() {
    let c = ConsensusSettings::default();
    assert_eq!(c.tx_limit, 128);
    assert_eq!(c.size_limit, 1000000);
    assert_eq!(c.time_limit, 600);
}

#[test]
fn sync_messages_round_trip() {
    let cases = vec![
        SyncType::GetHeight,
        SyncType::GetNemezis,
        SyncType::AtHeight(42),
        SyncType::TransactionAtHash(vec![1u8; 32]),
        SyncType::BlockAtHash(vec![2u8; 32]),
        SyncType::Height(7),
        SyncType::Transaction(vec![1, 2, 3]),
        SyncType::Block(vec![]),
        SyncType::BlockHash(vec![9u8; 32]),
    ];
    for m in cases {
        let enc = encode_sync(&m);
        let back = decode_sync(&enc).expect("canonical encoding decodes");
        assert_eq!(encode_sync(&back), enc);
    }
    assert!(decode_sync(&Vec::new()).is_none());
    assert!(decode_sync(&vec![99u8]).is_none());
}

#[test]
fn hex_encode_matches_reference() {
    let bytes = vec![0x00u8, 0x01, 0x7f, 0x80, 0xff, 0xa5];
    let ours = hex_encode(&bytes);
    let reference = hex::encode(&bytes);
    assert_eq!(ours, reference.as_bytes().to_vec());
}

#[test]
fn decimal_rendering() {
    assert_eq!(u64_to_decimal(0), b"0".to_vec());
    assert_eq!(u64_to_decimal(7), b"7".to_vec());
    assert_eq!(u64_to_decimal(12345), b"12345".to_vec());
    assert_eq!(
        u64_to_decimal(u64::MAX),
        u64::MAX.to_string().as_bytes().to_vec()
    );
}

#[test]
fn blake2b_digest_is_32_bytes_and_not_identity() {
    let empty = blake2b(&Vec::new());
    assert_eq!(empty.len(), 32);
    let a = blake2b(&vec![1u8]);
    let b = blake2b(&vec![2u8]);
    assert_eq!(a.len(), 32);
    assert_ne!(a, b);
    assert_ne!(a, vec![1u8]);
}

#[test]
fn merkle_single_leaf_is_the_leaf() {
    let leaf = vec![5u8; 32];
    let root = merkle_root(&vec![leaf.clone()]);
    assert_eq!(root, leaf);
}

#[test]
fn merkle_permutation_changes_root() {
    let a = vec![1u8; 32];
    let b = vec![2u8; 32];
    let r1 = merkle_root(&vec![a.clone(), b.clone()]);
    let r2 = merkle_root(&vec![b.clone(), a.clone()]);
    assert_eq!(r1.len(), 32);
    assert_ne!(r1, a);
    assert_ne!(r1, b);
    assert_ne!(r1, r2);
    // determinism: the same list gives the same root
    assert_eq!(r1, merkle_root(&vec![a, b]));
}
