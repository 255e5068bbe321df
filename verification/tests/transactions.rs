use blockchain::block::Block;
use blockchain::keys::{BlockchainHash, KeyPair};
use blockchain::scripts::Script;
use blockchain::transaction::{DraftTransaction, Transaction, TxOut, UnsignedTxIn};
use blockchain::transfer;
use blockchain::wallet::Wallet;

#[test]
fn it_can_create_unsigned_transaction() {
    let transaction = transfer::Transaction::new("S1", "R1", 100, None);

    assert_eq!(transaction.amount, 100);
    assert!(transaction.signature.is_none());
}

#[test]
fn it_can_create_signed_transaction() {
    let wallet = Wallet::new();
    let transaction = transfer::Transaction::new("S1", "R1", 100, Some(&wallet));

    println!("{:?}", transaction.signature);

    assert_eq!(transaction.amount, 100);
    assert!(transaction.signature.is_some());
}

#[test]
fn it_can_verify_signed_transaction() {
    let wallet = Wallet::new();
    let transaction = transfer::Transaction::new("S1", "R1", 100, Some(&wallet));

    assert!(transaction.verify(&wallet));
}

#[test]
fn test_key_generation_and_signing() {
    let keypair = KeyPair::generate();
    println!(
        "Generated Public Key Hash: {}",
        keypair.public_key().to_address().to_string_owned()
    );

    let message = b"Hello, blockchain!";
    let signature = keypair.sign(message).unwrap();

    assert!(keypair.verify(message, &signature));
}

#[test]
fn test_transaction_hashing_and_signing() {
    let keypair_alice = KeyPair::generate();
    let keypair_bob = KeyPair::generate();

    let txid_prev = BlockchainHash::default();

    let tx_in = UnsignedTxIn { prev_tx_id: txid_prev, prev_out_idx: 0, sequence: 0xFFFFFFFF };

    let tx_out = TxOut {
        value: 100_000_000,
        script_pubkey: Script::PayToPublicKeyHash {
            pub_key_hash: keypair_bob.public_key().to_address(),
        },
    };

    let tx = DraftTransaction::new(vec![tx_in], vec![tx_out]);
    let tx = tx.sign(&keypair_alice).unwrap();

    tx.verify_signatures().unwrap();

    println!("Transaction ID: {}", tx.id.to_string_owned());
}

#[test]
fn test_public_key_generation() {
    let wallet = Wallet::new();
    let verifying_key_bytes = wallet.get_public_key_bytes();
    let hex_key = hex::encode(verifying_key_bytes);
    println!("{hex_key}");
}

#[test]
fn test_genesis_return_block() {
    let block = Block::genesis();

    assert_eq!(block.height, 0);
    // The genesis block carries exactly its coinbase transaction and the
    // fixed timestamp the chain was born with.
    assert_eq!(block.transactions.len(), 1);
    assert_eq!(block.prev_block_hash, BlockchainHash::default());
    assert_eq!(block.nonce, 0);
    assert_eq!(block.timestamp, 1231006505);

    let hex_hash = block.hash.to_string_owned();
    assert_eq!(hex_hash.len(), 64);
}

#[test]
fn signed_transaction_id_is_recomputable() {
    let keypair = KeyPair::generate();
    let draft = DraftTransaction::new(
        vec![UnsignedTxIn {
            prev_tx_id: BlockchainHash::default(),
            prev_out_idx: 0,
            sequence: 1,
        }],
        vec![TxOut {
            value: 5,
            script_pubkey: Script::PayToPublicKeyHash {
                pub_key_hash: keypair.public_key().to_address(),
            },
        }],
    );
    let tx = draft.sign(&keypair).unwrap();
    assert_eq!(tx.calculate_id(), tx.id);

    let coinbase = Transaction::coinbase_transaction(&keypair.public_key().to_address(), 7);
    assert_eq!(coinbase.calculate_id(), coinbase.id);
    assert!(coinbase.is_coinbase());
}

#[test]
fn tampered_output_invalidates_signatures() {
    let keypair = KeyPair::generate();
    let draft = DraftTransaction::new(
        vec![UnsignedTxIn {
            prev_tx_id: BlockchainHash::default(),
            prev_out_idx: 3,
            sequence: 9,
        }],
        vec![TxOut {
            value: 40,
            script_pubkey: Script::PayToPublicKeyHash {
                pub_key_hash: keypair.public_key().to_address(),
            },
        }],
    );
    let mut tx = draft.sign(&keypair).unwrap();
    assert!(tx.verify_signatures().is_ok());

    tx.outputs[0].value = 41;
    assert!(tx.verify_signatures().is_err());
}

#[test]
fn genesis_transaction_is_deterministic() {
    let a = Transaction::genesis_transaction();
    let b = Transaction::genesis_transaction();
    assert_eq!(a.id, b.id);
    assert_eq!(a.outputs.len(), 1);
    assert_eq!(a.outputs[0].value, 120);
    assert!(a.is_coinbase());
}
