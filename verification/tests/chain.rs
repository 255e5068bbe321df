use blockchain::block::Block;
use blockchain::blockchain::{Blockchain, BlockchainError};
use blockchain::keys::{BlockchainHash, KeyPair, PublicKeyHash};
use blockchain::scripts::Script;
use blockchain::storage::MemoryStorage;
use blockchain::transaction::{DraftTransaction, Transaction, TxOut, UnsignedTxIn};

fn ready_chain(miner: &PublicKeyHash) -> Blockchain<MemoryStorage> {
    Blockchain::new(MemoryStorage::new(), miner.clone()).init().unwrap()
}

fn pay_to(addr: &PublicKeyHash, value: u64) -> TxOut {
    TxOut { value, script_pubkey: Script::PayToPublicKeyHash { pub_key_hash: addr.clone() } }
}

fn spend(
    prev_tx_id: &BlockchainHash,
    prev_out_idx: u32,
    outputs: Vec<TxOut>,
    key: &KeyPair,
) -> Transaction {
    let draft = DraftTransaction::new(
        vec![UnsignedTxIn {
            prev_tx_id: prev_tx_id.clone(),
            prev_out_idx,
            sequence: 0xFFFFFFFF,
        }],
        outputs,
    );
    draft.sign(key).unwrap()
}

#[test]
fn genesis_bootstrap() {
    let key = KeyPair::generate();
    let chain = ready_chain(&key.public_key().to_address());

    let blocks = chain.get_blocks().unwrap();
    assert_eq!(blocks.len(), 1);
    assert_eq!(blocks[0].height, 0);
    assert_eq!(blocks[0].prev_block_hash, BlockchainHash::default());
    assert_eq!(blocks[0].transactions.len(), 1);
    assert!(blocks[0].transactions[0].is_coinbase());
}

#[test]
fn fund_and_spend() {
    let key_a = KeyPair::generate();
    let key_b = KeyPair::generate();
    let addr_a = key_a.public_key().to_address();
    let addr_b = key_b.public_key().to_address();

    let mut chain = ready_chain(&addr_a);
    chain.mine_pending_transactions().unwrap();

    let blocks = chain.get_blocks().unwrap();
    let coinbase_id = blocks[1].transactions[0].id.clone();
    let funded = chain.get_utxos_by_address(addr_a.clone());
    assert_eq!(funded.len(), 1);
    assert_eq!(funded[0].value, 50_000_000_000);

    let tx = spend(
        &coinbase_id,
        0,
        vec![pay_to(&addr_b, 30_000_000_000), pay_to(&addr_a, 19_000_000_000)],
        &key_a,
    );
    chain.add_transaction(tx).unwrap();
    chain.mine_pending_transactions().unwrap();

    let utxos_b = chain.get_utxos_by_address(addr_b.clone());
    assert_eq!(utxos_b.len(), 1);
    assert_eq!(utxos_b[0].value, 30_000_000_000);

    let mut values_a: Vec<u64> =
        chain.get_utxos_by_address(addr_a.clone()).iter().map(|u| u.value).collect();
    values_a.sort();
    // The change plus the next coinbase, which claims the reward and the
    // 1e9 fee: at most 50e9 + 1e9.
    assert_eq!(values_a, vec![19_000_000_000, 51_000_000_000]);
}

#[test]
fn double_spend_rejection() {
    let key_a = KeyPair::generate();
    let key_c = KeyPair::generate();
    let addr_a = key_a.public_key().to_address();
    let addr_c = key_c.public_key().to_address();

    let mut chain = ready_chain(&addr_a);
    chain.mine_pending_transactions().unwrap();
    let blocks = chain.get_blocks().unwrap();
    let coinbase_id = blocks[1].transactions[0].id.clone();

    let tx1 = spend(&coinbase_id, 0, vec![pay_to(&addr_c, 10_000_000_000)], &key_a);
    chain.add_transaction(tx1).unwrap();

    let tx2 = spend(&coinbase_id, 0, vec![pay_to(&addr_c, 20_000_000_000)], &key_a);
    let err = chain.add_transaction(tx2).unwrap_err();
    assert!(matches!(err, BlockchainError::DoubleSpendAttempt { .. }));
}

#[test]
fn bad_signature_is_rejected() {
    let key_a = KeyPair::generate();
    let addr_a = key_a.public_key().to_address();

    let mut chain = ready_chain(&addr_a);
    chain.mine_pending_transactions().unwrap();
    let blocks = chain.get_blocks().unwrap();
    let coinbase_id = blocks[1].transactions[0].id.clone();

    let mut tx = spend(&coinbase_id, 0, vec![pay_to(&addr_a, 1_000_000_000)], &key_a);
    assert!(tx.verify_signatures().is_ok());

    let mut bytes = tx.inputs[0].script_sig.to_vec();
    bytes[10] ^= 0x40;
    tx.inputs[0].script_sig = blockchain::keys::Signature::from_bytes(&bytes);

    assert!(tx.verify_signatures().is_err());
    let err = chain.add_transaction(tx).unwrap_err();
    assert!(matches!(err, BlockchainError::SignatureError(_)));
}

#[test]
fn future_timestamp_is_rejected() {
    let key_a = KeyPair::generate();
    let addr_a = key_a.public_key().to_address();
    let mut chain = ready_chain(&addr_a);

    let blocks = chain.get_blocks().unwrap();
    let tip_hash = blocks[0].hash.clone();

    let now = chrono::Utc::now().timestamp_millis() as u128;
    let future = now + 3 * 60 * 60 * 1000;
    let coinbase = Transaction::coinbase_transaction(&addr_a, 50_000_000_000);
    let block = Block::mine(1, vec![coinbase], tip_hash, 2, future).unwrap();

    let err = chain.add_block(block).unwrap_err();
    assert!(matches!(err, BlockchainError::InvalidBlock(_)));
}

#[test]
fn height_gap_is_rejected() {
    let key_a = KeyPair::generate();
    let addr_a = key_a.public_key().to_address();
    let mut chain = ready_chain(&addr_a);
    for _ in 0..5 {
        chain.mine_pending_transactions().unwrap();
    }
    let blocks = chain.get_blocks().unwrap();
    assert_eq!(blocks.last().unwrap().height, 5);
    let tip_hash = blocks.last().unwrap().hash.clone();

    let now = chrono::Utc::now().timestamp_millis() as u128;
    let coinbase = Transaction::coinbase_transaction(&addr_a, 50_000_000_000);
    let block = Block::mine(7, vec![coinbase], tip_hash, 2, now).unwrap();

    let err = chain.add_block(block).unwrap_err();
    assert!(matches!(err, BlockchainError::InvalidBlock(_)));
}

#[test]
fn duplicate_submission_is_rejected() {
    let key_a = KeyPair::generate();
    let addr_a = key_a.public_key().to_address();
    let mut chain = ready_chain(&addr_a);
    chain.mine_pending_transactions().unwrap();
    let blocks = chain.get_blocks().unwrap();
    let coinbase_id = blocks[1].transactions[0].id.clone();

    let tx = spend(&coinbase_id, 0, vec![pay_to(&addr_a, 1_000_000_000)], &key_a);
    let accepted = chain.add_transaction(tx).unwrap();
    let err = chain.add_transaction(accepted).unwrap_err();
    assert!(matches!(err, BlockchainError::MempoolError(_)));
}

#[test]
fn confirmed_outpoint_cannot_be_spent_again() {
    let key_a = KeyPair::generate();
    let addr_a = key_a.public_key().to_address();
    let mut chain = ready_chain(&addr_a);
    chain.mine_pending_transactions().unwrap();
    let blocks = chain.get_blocks().unwrap();
    let coinbase_id = blocks[1].transactions[0].id.clone();

    let tx = spend(&coinbase_id, 0, vec![pay_to(&addr_a, 1_000_000_000)], &key_a);
    chain.add_transaction(tx).unwrap();
    chain.mine_pending_transactions().unwrap();

    // The input was removed from the UTXO set when its block applied, so a
    // new transaction over it no longer finds it.
    let tx2 = spend(&coinbase_id, 0, vec![pay_to(&addr_a, 2_000_000_000)], &key_a);
    let err = chain.add_transaction(tx2).unwrap_err();
    assert!(matches!(err, BlockchainError::UtxoNotFound { .. }));
}

#[test]
fn rebuild_reproduces_the_utxo_set() {
    let key_a = KeyPair::generate();
    let key_b = KeyPair::generate();
    let addr_a = key_a.public_key().to_address();
    let addr_b = key_b.public_key().to_address();

    let mut chain = ready_chain(&addr_a);
    chain.mine_pending_transactions().unwrap();
    let blocks = chain.get_blocks().unwrap();
    let coinbase_id = blocks[1].transactions[0].id.clone();
    let tx = spend(
        &coinbase_id,
        0,
        vec![pay_to(&addr_b, 30_000_000_000), pay_to(&addr_a, 19_000_000_000)],
        &key_a,
    );
    chain.add_transaction(tx).unwrap();
    chain.mine_pending_transactions().unwrap();

    let mut before_a: Vec<u64> =
        chain.get_utxos_by_address(addr_a.clone()).iter().map(|u| u.value).collect();
    let mut before_b: Vec<u64> =
        chain.get_utxos_by_address(addr_b.clone()).iter().map(|u| u.value).collect();
    before_a.sort();
    before_b.sort();

    chain.rebuild_utxo_set().unwrap();

    let mut after_a: Vec<u64> =
        chain.get_utxos_by_address(addr_a.clone()).iter().map(|u| u.value).collect();
    let mut after_b: Vec<u64> =
        chain.get_utxos_by_address(addr_b.clone()).iter().map(|u| u.value).collect();
    after_a.sort();
    after_b.sort();

    assert_eq!(before_a, after_a);
    assert_eq!(before_b, after_b);
}

#[test]
fn zero_value_output_is_rejected() {
    let key_a = KeyPair::generate();
    let addr_a = key_a.public_key().to_address();
    let mut chain = ready_chain(&addr_a);
    chain.mine_pending_transactions().unwrap();
    let blocks = chain.get_blocks().unwrap();
    let coinbase_id = blocks[1].transactions[0].id.clone();

    let tx = spend(&coinbase_id, 0, vec![pay_to(&addr_a, 0)], &key_a);
    let err = chain.add_transaction(tx).unwrap_err();
    assert!(matches!(err, BlockchainError::InvalidTransaction(_)));
}

#[test]
fn overspending_is_rejected() {
    let key_a = KeyPair::generate();
    let addr_a = key_a.public_key().to_address();
    let mut chain = ready_chain(&addr_a);
    chain.mine_pending_transactions().unwrap();
    let blocks = chain.get_blocks().unwrap();
    let coinbase_id = blocks[1].transactions[0].id.clone();

    let tx = spend(&coinbase_id, 0, vec![pay_to(&addr_a, 60_000_000_000)], &key_a);
    let err = chain.add_transaction(tx).unwrap_err();
    assert!(matches!(err, BlockchainError::InsufficientFunds));
}

#[test]
fn missing_outpoint_is_reported() {
    let key_a = KeyPair::generate();
    let addr_a = key_a.public_key().to_address();
    let mut chain = ready_chain(&addr_a);

    let mut fake = vec![0u8; 32];
    fake[31] = 9;
    let fake_id = BlockchainHash::new(fake);
    let tx = spend(&fake_id, 0, vec![pay_to(&addr_a, 1)], &key_a);
    let err = chain.add_transaction(tx).unwrap_err();
    assert!(matches!(err, BlockchainError::UtxoNotFound { .. }));
}
