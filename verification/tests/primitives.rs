use blockchain::block::Block;
use blockchain::crypto::{calculate_p2pkh_hash, double_sha256, parse_p2pkh_script_sig_k256};
use blockchain::keys::{BlockchainHash, PublicKeyHash};
use blockchain::scripts::Script;
use blockchain::transaction::{Transaction, TxOut};
use blockchain::utxo_set::UTXOSet;

#[test]
fn hash_hex_round_trip() {
    let zero = BlockchainHash::default();
    assert_eq!(
        zero.to_string_owned(),
        "0000000000000000000000000000000000000000000000000000000000000000"
    );
    assert!(zero.is_zero_hash());

    let addr = PublicKeyHash::try_from_string("8dd45dc1a355c066d89e551db6cd9469513eb4dd").unwrap();
    assert_eq!(addr.to_string_owned(), "8dd45dc1a355c066d89e551db6cd9469513eb4dd");
    assert!(PublicKeyHash::try_from_string("xyz").is_err());
    assert!(PublicKeyHash::try_from_string("8dd4").is_err());
}

#[test]
fn hash_ordering_is_lexicographic() {
    let mut lo = vec![0u8; 32];
    lo[0] = 1;
    let mut hi = vec![0u8; 32];
    hi[0] = 2;
    let lo = BlockchainHash::new(lo);
    let hi = BlockchainHash::new(hi);
    assert!(lo.le(&hi));
    assert!(!hi.le(&lo));
    assert!(lo.le(&lo));
}

#[test]
fn double_sha256_digests_are_stable() {
    let a = double_sha256(b"hello");
    let b = double_sha256(b"hello");
    let c = double_sha256(b"hellp");
    assert_eq!(a.len(), 32);
    assert_eq!(a, b);
    assert_ne!(a, c);
    // An empty input still yields a 32-byte digest: the call computes, it
    // does not echo.
    assert_eq!(double_sha256(b"").len(), 32);
}

#[test]
fn p2pkh_hash_has_address_length() {
    let h = calculate_p2pkh_hash(b"some compressed key bytes");
    assert_eq!(h.as_ref().len(), 20);
    let other = calculate_p2pkh_hash(b"other compressed key bytes");
    assert_ne!(h, other);
}

#[test]
fn script_sig_splits_at_pubkey_boundary() {
    let mut bytes = vec![7u8; 40];
    for (i, b) in bytes.iter_mut().enumerate() {
        *b = i as u8;
    }
    let (sig, pk) = parse_p2pkh_script_sig_k256(&bytes).unwrap();
    assert_eq!(sig.len(), 7);
    assert_eq!(pk.len(), 33);
    assert_eq!(sig[..], bytes[..7]);
    assert_eq!(pk[..], bytes[7..]);

    assert!(parse_p2pkh_script_sig_k256(&[1u8; 10]).is_err());
}

#[test]
fn difficulty_target_is_monotone() {
    let t1 = Block::get_difficulty_target_from_bits(1).unwrap();
    let t2 = Block::get_difficulty_target_from_bits(2).unwrap();
    let t8 = Block::get_difficulty_target_from_bits(8).unwrap();
    assert!(t2.le(&t1));
    assert!(t8.le(&t2));

    let bytes = t8.as_ref();
    assert_eq!(bytes[0], 0);
    for b in bytes.iter().skip(1) {
        assert_eq!(*b, 0xFF);
    }

    let t0 = Block::get_difficulty_target_from_bits(0).unwrap();
    for b in t0.as_ref().iter() {
        assert_eq!(*b, 0xFF);
    }
}

#[test]
fn merkle_root_is_stable_and_order_sensitive() {
    let addr = PublicKeyHash::try_from_string("8dd45dc1a355c066d89e551db6cd9469513eb4dd").unwrap();
    let t1 = Transaction::coinbase_transaction(&addr, 1);
    let t2 = Transaction::coinbase_transaction(&addr, 2);
    let t3 = Transaction::coinbase_transaction(&addr, 3);

    let txs = vec![t1.clone(), t2.clone(), t3.clone()];
    let again = vec![t1.clone(), t2.clone(), t3.clone()];
    let swapped = vec![t2, t1, t3];

    let root = Block::calculate_merkle_root(&txs).unwrap();
    let root_again = Block::calculate_merkle_root(&again).unwrap();
    let root_swapped = Block::calculate_merkle_root(&swapped).unwrap();

    assert_eq!(root, root_again);
    assert_ne!(root, root_swapped);

    assert!(Block::calculate_merkle_root(&Vec::new()).is_err());
}

#[test]
fn mined_block_meets_its_target() {
    let addr = PublicKeyHash::try_from_string("8dd45dc1a355c066d89e551db6cd9469513eb4dd").unwrap();
    let coinbase = Transaction::coinbase_transaction(&addr, 50);
    let block = Block::mine(1, vec![coinbase], BlockchainHash::default(), 2, 1000).unwrap();
    assert!(block.validate_proof_of_work().is_ok());
    assert!(block.verify_merkle_root().is_ok());
    assert_eq!(block.height, 1);
    assert_eq!(block.bits, 2);
    assert_eq!(block.timestamp, 1000);
}

#[test]
fn utxo_set_tracks_entries_and_reservations() {
    let mut set = UTXOSet::new();
    let addr = PublicKeyHash::try_from_string("8dd45dc1a355c066d89e551db6cd9469513eb4dd").unwrap();
    let key = (BlockchainHash::default(), 0u32);
    let out = TxOut { value: 9, script_pubkey: Script::PayToPublicKeyHash { pub_key_hash: addr.clone() } };

    assert!(set.get(&key).is_none());
    assert!(set.insert((key.0.clone(), key.1), out).is_none());
    assert_eq!(set.get(&key).unwrap().value, 9);

    assert!(!set.is_reserved(&key));
    set.reserve(vec![(key.0.clone(), key.1)]);
    assert!(set.is_reserved(&key));

    let listed = set.get_utxos_by_address(addr.clone());
    assert_eq!(listed.len(), 1);
    assert_eq!(listed[0].value, 9);

    let removed = set.remove(&key).unwrap();
    assert_eq!(removed.value, 9);
    assert!(!set.is_reserved(&key));
    assert!(set.get(&key).is_none());

    // A reservation never creates an entry.
    set.reserve(vec![(key.0.clone(), key.1)]);
    assert!(!set.is_reserved(&key));

    set.clear();
    assert!(set.get(&key).is_none());
}

#[test]
fn genesis_block_is_reproducible() {
    let a = Block::genesis();
    let b = Block::genesis();
    assert_eq!(a.hash, b.hash);
    assert_eq!(a.merkle_root, b.merkle_root);
    assert!(a.verify_merkle_root().is_ok());
}

#[test]
fn block_encoding_round_trips() {
    let addr = PublicKeyHash::try_from_string("8dd45dc1a355c066d89e551db6cd9469513eb4dd").unwrap();
    let coinbase = Transaction::coinbase_transaction(&addr, 50);
    let block = Block::mine(3, vec![coinbase], BlockchainHash::default(), 2, 77).unwrap();

    let bytes = block.encode_block();
    let decoded = Block::decode_block(&bytes).unwrap();

    assert_eq!(decoded.height, block.height);
    assert_eq!(decoded.timestamp, block.timestamp);
    assert_eq!(decoded.hash, block.hash);
    assert_eq!(decoded.merkle_root, block.merkle_root);
    assert_eq!(decoded.transactions.len(), 1);
    assert_eq!(decoded.transactions[0].id, block.transactions[0].id);
    assert_eq!(decoded.transactions[0].outputs[0].value, 50);

    // Unknown trailing bytes are tolerated.
    let mut padded = block.encode_block();
    padded.extend_from_slice(&[1, 2, 3]);
    assert!(Block::decode_block(&padded).is_some());

    assert!(Block::decode_block(&bytes[..10]).is_none());
}
