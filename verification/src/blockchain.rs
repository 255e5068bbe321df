//! The ledger engine: tip tracking, mempool, transaction admission, block
//! application, and UTXO rebuild from storage.

use vstd::prelude::*;

use crate::block::{
    spec_block_additions, spec_block_merkle_root, spec_block_removals, spec_genesis_block,
    spec_header_hash, spec_pow_ok, spec_target, spec_timestamp_plausible, Block, BlockV,
};
use crate::clock::now_millis;
use crate::crypto::spec_p2pkh_hash;
use crate::keys::blockchain_hash::{spec_lex_le, spec_zero_hash};
use crate::keys::signature::{spec_pubkey_part, spec_script_sig_ok};
use crate::keys::{BlockchainHash, PublicKeyHash, SignatureError};
use crate::scripts::ScriptV;
use crate::storage::{spec_covers, Storage, StorageError};
use crate::transaction::{
    spec_coinbase_tx, spec_is_coinbase, spec_sigs_valid, Transaction, TransactionV, TxOutV, UTXO,
};
use crate::utxo_set::{KeyV, UTXOSet};

verus! {

/// The fixed reward a miner may claim per block, on top of fees.
pub const BLOCK_REWARD: u64 = 50000000000;

/// Everything the ledger engine can reject or fail on.
#[derive(Debug)]
pub enum BlockchainError {
    InconsistentStorage,
    BusinessError(String),
    StorageError(StorageError),
    SignatureError(SignatureError),
    InvalidCoinbase(String),
    UtxoNotFound { tx_id: BlockchainHash, out_idx: u32 },
    InvalidPublicKey(String),
    InvalidTransaction(String),
    InsufficientFunds,
    DoubleSpendAttempt { tx_id: BlockchainHash, out_idx: u32 },
    InvalidFee(String),
    MempoolError(String),
    InvalidBlock(String),
    InvalidProofOfWork(String),
}

/// The outpoint an input spends.
pub open spec fn spec_input_key(i: crate::transaction::TxInV) -> KeyV {
    (i.prev_tx_id, i.prev_out_idx)
}

/// The outpoints a transaction spends, in input order.
pub open spec fn spec_tx_input_keys(t: TransactionV) -> Seq<KeyV> {
    Seq::new(t.inputs.len(), |i: int| spec_input_key(t.inputs[i]))
}

/// No outpoint is spent twice within one transaction.
pub open spec fn spec_inputs_unique(t: TransactionV) -> bool {
    forall|i: int, j: int|
        0 <= i < j < t.inputs.len() ==> spec_input_key(#[trigger] t.inputs[i]) != spec_input_key(
            #[trigger] t.inputs[j],
        )
}

/// Every spent outpoint exists in the UTXO set.
pub open spec fn spec_inputs_present(u: Map<KeyV, TxOutV>, t: TransactionV) -> bool {
    forall|i: int|
        0 <= i < t.inputs.len() ==> u.contains_key(spec_input_key(#[trigger] t.inputs[i]))
}

/// No spent outpoint carries a mempool reservation.
pub open spec fn spec_inputs_unreserved(r: Set<KeyV>, t: TransactionV) -> bool {
    forall|i: int|
        0 <= i < t.inputs.len() ==> !r.contains(spec_input_key(#[trigger] t.inputs[i]))
}

/// Each spent output is locked to the address derived from the public key
/// in the spending input's script-sig.
pub open spec fn spec_inputs_addr_match(u: Map<KeyV, TxOutV>, t: TransactionV) -> bool {
    forall|i: int|
        0 <= i < t.inputs.len() && u.contains_key(spec_input_key(#[trigger] t.inputs[i]))
            ==> u[spec_input_key(t.inputs[i])].script_pubkey == (ScriptV::PayToPublicKeyHash {
            pub_key_hash: spec_p2pkh_hash(spec_pubkey_part(t.inputs[i].script_sig)),
        })
}

/// The value flowing in: the sum of the spent outputs' values.
pub open spec fn spec_sum_in(u: Map<KeyV, TxOutV>, inputs: Seq<crate::transaction::TxInV>) -> int
    decreases inputs.len(),
{
    if inputs.len() == 0 {
        0
    } else {
        spec_sum_in(u, inputs.drop_last()) + u[spec_input_key(inputs.last())].value
    }
}

/// The value flowing out: the sum of the created outputs' values.
pub open spec fn spec_sum_out(outputs: Seq<TxOutV>) -> int
    decreases outputs.len(),
{
    if outputs.len() == 0 {
        0
    } else {
        spec_sum_out(outputs.drop_last()) + outputs.last().value
    }
}

/// Every created output carries a positive value.
pub open spec fn spec_outputs_positive(t: TransactionV) -> bool {
    forall|i: int| 0 <= i < t.outputs.len() ==> (#[trigger] t.outputs[i]).value > 0
}

/// A transaction is acceptable inside a block: signatures verify, inputs
/// are distinct, exist, and match their addresses, outputs are positive,
/// inputs cover outputs, and the fee fits a u64. Reservations are not
/// consulted: confirmation overrides the mempool.
pub open spec fn spec_tx_valid_in_block(u: Map<KeyV, TxOutV>, t: TransactionV) -> bool {
    &&& spec_sigs_valid(t)
    &&& spec_inputs_unique(t)
    &&& spec_inputs_present(u, t)
    &&& spec_inputs_addr_match(u, t)
    &&& spec_outputs_positive(t)
    &&& spec_sum_in(u, t.inputs) >= spec_sum_out(t.outputs)
    &&& spec_sum_in(u, t.inputs) - spec_sum_out(t.outputs) <= u64::MAX
}

/// A transaction is admissible to the mempool: valid as above, and no
/// input is already reserved by a pending transaction.
pub open spec fn spec_tx_admissible(
    u: Map<KeyV, TxOutV>,
    r: Set<KeyV>,
    t: TransactionV,
) -> bool {
    spec_tx_valid_in_block(u, t) && spec_inputs_unreserved(r, t)
}

/// The fee a valid transaction pays.
pub open spec fn spec_tx_fee(u: Map<KeyV, TxOutV>, t: TransactionV) -> int {
    spec_sum_in(u, t.inputs) - spec_sum_out(t.outputs)
}

/// Which violated rule each error kind of transaction validation
/// reports. The double-spend and missing-outpoint kinds also carry the
/// offending outpoint. Reservations matter only for mempool admission
/// (`check_reserved`).
pub open spec fn spec_tx_err_kind(
    u: Map<KeyV, TxOutV>,
    reserved: Set<KeyV>,
    t: TransactionV,
    check_reserved: bool,
    e: BlockchainError,
) -> bool {
    &&& (e is SignatureError || e is DoubleSpendAttempt || e is UtxoNotFound
        || e is InvalidPublicKey || e is InvalidTransaction || e is InsufficientFunds
        || e is InvalidFee)
    &&& (e is SignatureError ==> !spec_sigs_valid(t))
    &&& (e matches BlockchainError::DoubleSpendAttempt { tx_id, out_idx } ==> {
        &&& spec_tx_input_keys(t).contains((tx_id@, out_idx))
        &&& (!spec_inputs_unique(t) || (check_reserved && reserved.contains((tx_id@, out_idx))))
    })
    &&& (e matches BlockchainError::UtxoNotFound { tx_id, out_idx } ==> {
        &&& spec_tx_input_keys(t).contains((tx_id@, out_idx))
        &&& !u.contains_key((tx_id@, out_idx))
    })
    &&& (e is InvalidPublicKey ==> !spec_inputs_addr_match(u, t))
    &&& (e is InvalidTransaction ==> !spec_outputs_positive(t))
    &&& (e is InsufficientFunds ==> spec_sum_in(u, t.inputs) < spec_sum_out(t.outputs))
    &&& (e is InvalidFee ==> spec_sum_in(u, t.inputs) - spec_sum_out(t.outputs) > u64::MAX)
}

/// The UTXO map after removing a list of outpoints.
pub open spec fn spec_remove_keys(m: Map<KeyV, TxOutV>, ks: Seq<KeyV>) -> Map<KeyV, TxOutV>
    decreases ks.len(),
{
    if ks.len() == 0 {
        m
    } else {
        spec_remove_keys(m, ks.drop_last()).remove(ks.last())
    }
}

/// The reservation set after clearing a list of outpoints.
pub open spec fn spec_unreserve(r: Set<KeyV>, ks: Seq<KeyV>) -> Set<KeyV>
    decreases ks.len(),
{
    if ks.len() == 0 {
        r
    } else {
        spec_unreserve(r, ks.drop_last()).remove(ks.last())
    }
}

/// The UTXO map after inserting a list of entries.
pub open spec fn spec_insert_entries(
    m: Map<KeyV, TxOutV>,
    es: Seq<(KeyV, TxOutV)>,
) -> Map<KeyV, TxOutV>
    decreases es.len(),
{
    if es.len() == 0 {
        m
    } else {
        spec_insert_entries(m, es.drop_last()).insert(es.last().0, es.last().1)
    }
}

/// The UTXO map after one block: spent outpoints removed, created outputs
/// inserted.
pub open spec fn spec_apply_block_utxos(m: Map<KeyV, TxOutV>, b: BlockV) -> Map<KeyV, TxOutV> {
    spec_insert_entries(spec_remove_keys(m, spec_block_removals(b)), spec_block_additions(b))
}

/// The UTXO map a chain of blocks builds from nothing. Replaying the
/// chain from storage yields exactly this map, so rebuild agrees with
/// block-by-block application.
pub open spec fn spec_utxo_after_blocks(bs: Seq<BlockV>) -> Map<KeyV, TxOutV>
    decreases bs.len(),
{
    if bs.len() == 0 {
        Map::empty()
    } else {
        spec_apply_block_utxos(spec_utxo_after_blocks(bs.drop_last()), bs.last())
    }
}

/// The sum of fees of a list of transactions against one UTXO map.
pub open spec fn spec_fees_sum(u: Map<KeyV, TxOutV>, ts: Seq<TransactionV>) -> int
    decreases ts.len(),
{
    if ts.len() == 0 {
        0
    } else {
        spec_fees_sum(u, ts.drop_last()) + spec_tx_fee(u, ts.last())
    }
}

/// A block is valid against a UTXO map, a tip and a clock reading:
/// continuity, Merkle commitment, timestamp rule, proof of work, validity
/// of every non-coinbase transaction, and a bounded coinbase claim.
pub open spec fn spec_block_valid(
    u: Map<KeyV, TxOutV>,
    tip: BlockV,
    b: BlockV,
    now: u128,
) -> bool {
    &&& b.height == tip.height + 1
    &&& b.height < u64::MAX
    &&& b.prev_block_hash == tip.hash
    &&& b.transactions.len() > 0
    &&& b.merkle_root == spec_block_merkle_root(b)
    &&& spec_timestamp_plausible(b.timestamp, now)
    &&& spec_pow_ok(b)
    &&& (forall|i: int|
        1 <= i < b.transactions.len() ==> spec_tx_valid_in_block(u, #[trigger] b.transactions[i]))
    &&& spec_is_coinbase(b.transactions[0])
    &&& spec_sum_out(b.transactions[0].outputs) <= BLOCK_REWARD + spec_fees_sum(
        u,
        b.transactions.skip(1),
    )
}

/// Which violated rule each error kind of block application reports: the
/// continuity, commitment, timestamp and stored-hash checks surface as
/// `InvalidBlock`; a missed difficulty target as `InvalidProofOfWork`; a
/// malformed or overclaiming coinbase as `InvalidCoinbase`; and a bad
/// non-coinbase transaction as that transaction's own validation kind.
pub open spec fn spec_block_err_kind(
    u: Map<KeyV, TxOutV>,
    tip: BlockV,
    b: BlockV,
    now: u128,
    e: BlockchainError,
) -> bool {
    &&& (e is InvalidBlock || e is InvalidProofOfWork || e is InvalidCoinbase
        || e is SignatureError || e is DoubleSpendAttempt || e is UtxoNotFound
        || e is InvalidPublicKey || e is InvalidTransaction || e is InsufficientFunds
        || e is InvalidFee)
    &&& (e is InvalidBlock ==> (b.height != tip.height + 1 || b.height == u64::MAX
        || b.prev_block_hash != tip.hash || b.transactions.len() == 0 || b.merkle_root
        != spec_block_merkle_root(b) || !spec_timestamp_plausible(b.timestamp, now) || b.hash
        != spec_header_hash(b)))
    &&& (e is InvalidProofOfWork ==> (spec_header_hash(b) == spec_zero_hash() || !spec_lex_le(
        spec_header_hash(b),
        spec_target(b.bits),
    )))
    &&& (e is InvalidCoinbase ==> (b.transactions.len() > 0 && (!spec_is_coinbase(
        b.transactions[0],
    ) || spec_sum_out(b.transactions[0].outputs) > BLOCK_REWARD + spec_fees_sum(
        u,
        b.transactions.skip(1),
    ))))
    &&& ((e is SignatureError || e is DoubleSpendAttempt || e is UtxoNotFound
        || e is InvalidPublicKey || e is InvalidTransaction || e is InsufficientFunds
        || e is InvalidFee) ==> exists|i: int|
        1 <= i < b.transactions.len() && spec_tx_err_kind(
            u,
            Set::empty(),
            #[trigger] b.transactions[i],
            false,
            e,
        ))
}

/// The total of the fees recorded with a list of mempool entries.
pub open spec fn spec_fee_total(s: Seq<(Seq<u8>, TransactionV, u64)>) -> int
    decreases s.len(),
{
    if s.len() == 0 {
        0
    } else {
        spec_fee_total(s.drop_last()) + s.last().2
    }
}

/// The value a freshly mined coinbase claims: the block reward plus the
/// pending fees, clamped to what a u64 can carry.
pub open spec fn spec_mining_reward(fees: int) -> u64 {
    if BLOCK_REWARD + fees > u64::MAX {
        u64::MAX
    } else {
        (BLOCK_REWARD + fees) as u64
    }
}

/// The mempool map a list of (id, transaction, fee) entries denotes.
pub open spec fn spec_mempool_map(s: Seq<(Seq<u8>, TransactionV, u64)>) -> Map<
    Seq<u8>,
    TransactionV,
>
    decreases s.len(),
{
    if s.len() == 0 {
        Map::empty()
    } else {
        spec_mempool_map(s.drop_last()).insert(s.last().0, s.last().1)
    }
}

pub open spec fn spec_mempool_uniq(s: Seq<(Seq<u8>, TransactionV, u64)>) -> bool {
    forall|i: int, j: int| 0 <= i < j < s.len() ==> (#[trigger] s[i]).0 != (#[trigger] s[j]).0
}

proof fn lemma_mempool_contains(s: Seq<(Seq<u8>, TransactionV, u64)>, k: Seq<u8>)
    ensures
        spec_mempool_map(s).contains_key(k) <==> exists|i: int|
            0 <= i < s.len() && (#[trigger] s[i]).0 == k,
    decreases s.len(),
{
    if s.len() > 0 {
        lemma_mempool_contains(s.drop_last(), k);
        if s.last().0 == k {
            assert(s[s.len() - 1].0 == k);
        } else {
            if spec_mempool_map(s).contains_key(k) {
                let i = choose|i: int| 0 <= i < s.drop_last().len() && (#[trigger] s.drop_last()[
                    i
                ]).0 == k;
                assert(s[i].0 == k);
            }
            if exists|i: int| 0 <= i < s.len() && (#[trigger] s[i]).0 == k {
                let i = choose|i: int| 0 <= i < s.len() && (#[trigger] s[i]).0 == k;
                assert(i < s.len() - 1);
                assert(s.drop_last()[i].0 == k);
            }
        }
    }
}

proof fn lemma_mempool_remove(s: Seq<(Seq<u8>, TransactionV, u64)>, i: int)
    requires
        spec_mempool_uniq(s),
        0 <= i < s.len(),
    ensures
        spec_mempool_map(s.remove(i)) == spec_mempool_map(s).remove(s[i].0),
        spec_mempool_uniq(s.remove(i)),
    decreases s.len(),
{
    let s2 = s.remove(i);
    assert(spec_mempool_uniq(s2)) by {
        assert(forall|a: int|
            0 <= a < s2.len() ==> #[trigger] s2[a] == if a < i {
                s[a]
            } else {
                s[a + 1]
            });
    }
    if i == s.len() - 1 {
        assert(s2 =~= s.drop_last());
        lemma_mempool_contains(s.drop_last(), s[i].0);
        assert(forall|a: int| 0 <= a < s.drop_last().len() ==> #[trigger] s.drop_last()[a] == s[a]);
        assert(!spec_mempool_map(s.drop_last()).contains_key(s[i].0));
        assert(spec_mempool_map(s).remove(s[i].0) =~= spec_mempool_map(s.drop_last()));
    } else {
        assert(spec_mempool_uniq(s.drop_last())) by {
            assert(forall|a: int|
                0 <= a < s.drop_last().len() ==> #[trigger] s.drop_last()[a] == s[a]);
        }
        assert(s.drop_last()[i] == s[i]);
        lemma_mempool_remove(s.drop_last(), i);
        assert(s2.drop_last() =~= s.drop_last().remove(i));
        assert(s2.last() == s.last());
        assert(spec_mempool_map(s2) == spec_mempool_map(s.drop_last()).remove(s[i].0).insert(
            s.last().0,
            s.last().1,
        ));
        assert(s[i].0 != s.last().0);
        assert(spec_mempool_map(s.drop_last()).remove(s[i].0).insert(s.last().0, s.last().1)
            =~= spec_mempool_map(s.drop_last()).insert(s.last().0, s.last().1).remove(s[i].0));
    }
}

/// The ledger engine. It owns the tip, the mempool and the UTXO set, and
/// persists blocks through a [`Storage`]. An embedding synchronizes whole
/// calls; the engine itself is sequential.
pub struct Blockchain<S: Storage> {
    current_tip_hash: BlockchainHash,
    current_tip_block: Block,
    mempool: Vec<(BlockchainHash, Transaction, u64)>,
    utxo_set: UTXOSet,
    storage: S,
    miner_address: PublicKeyHash,
    history: Ghost<Seq<BlockV>>,
}

impl<S: Storage> Blockchain<S> {
    /// The confirmed UTXO map.
    pub closed spec fn utxos(&self) -> Map<KeyV, TxOutV> {
        self.utxo_set.utxos()
    }

    /// The outpoints reserved by pending transactions.
    pub closed spec fn reserved(&self) -> Set<KeyV> {
        self.utxo_set.reserved_keys()
    }

    /// The pending transactions, keyed by id.
    pub closed spec fn mempool_view(&self) -> Map<Seq<u8>, TransactionV> {
        spec_mempool_map(self.mempool.deep_view())
    }

    /// The current tip block.
    pub closed spec fn tip(&self) -> BlockV {
        self.current_tip_block@
    }

    /// The chain so far, genesis first. `history()[i]` sits at height `i`.
    pub closed spec fn history(&self) -> Seq<BlockV> {
        self.history@
    }

    /// The blocks on storage.
    pub closed spec fn storage_blocks(&self) -> Map<u64, BlockV> {
        self.storage.blocks()
    }

    /// The latest-hash pointer on storage.
    pub closed spec fn storage_latest(&self) -> Option<Seq<u8>> {
        self.storage.latest_hash()
    }

    /// The pending transactions in mempool order.
    pub closed spec fn mempool_txs(&self) -> Seq<TransactionV> {
        Seq::new(self.mempool.deep_view().len(), |i: int| self.mempool.deep_view()[i].1)
    }

    /// The total of the fees the pending transactions were admitted with.
    pub closed spec fn mempool_fees(&self) -> int {
        spec_fee_total(self.mempool.deep_view())
    }

    /// The address the engine mines to.
    pub closed spec fn miner_addr(&self) -> Seq<u8> {
        self.miner_address@
    }

    /// A ready engine: the UTXO set and mempool are internally coherent,
    /// the chain has contiguous heights from genesis, the tip is its last
    /// block, storage mirrors it, and the UTXO map is exactly the replay
    /// of the chain.
    /// The UTXO set and mempool are internally coherent.
    pub closed spec fn wf_pools(&self) -> bool {
        &&& self.utxo_set.wf()
        &&& spec_mempool_uniq(self.mempool.deep_view())
        &&& (forall|i: int|
            0 <= i < self.mempool@.len() ==> (#[trigger] self.mempool.deep_view()[i]).0
                == self.mempool.deep_view()[i].1.id)
    }

    /// The chain has contiguous heights from genesis and the tip is its
    /// last block.
    pub closed spec fn wf_chain(&self) -> bool {
        &&& self.history@.len() >= 1
        &&& self.history@.len() <= u64::MAX
        &&& (forall|i: int|
            0 <= i < self.history@.len() ==> (#[trigger] self.history@[i]).height == i as u64)
        &&& self.tip() == self.history@.last()
        &&& self.current_tip_hash@ == self.tip().hash
    }

    /// Storage holds exactly the chain.
    pub closed spec fn wf_storage(&self) -> bool {
        spec_storage_matches(self.storage.blocks(), self.history@)
    }

    /// A ready engine: the UTXO set and mempool are internally coherent,
    /// the chain has contiguous heights from genesis, the tip is its last
    /// block, storage mirrors it, and the UTXO map is exactly the replay
    /// of the chain.
    pub closed spec fn wf(&self) -> bool {
        &&& self.wf_pools()
        &&& self.wf_chain()
        &&& self.wf_storage()
        &&& self.utxos() == spec_utxo_after_blocks(self.history@)
    }

    /// Checks each input of a transaction    /// Checks each input of a transaction against the UTXO set and sums
    /// the value flow. Reservations are consulted only for mempool
    /// admission (`check_reserved`), never for block application.
    fn validate_against(
        utxo_set: &UTXOSet,
        tx: &Transaction,
        check_reserved: bool,
    ) -> (r: Result<(Vec<(BlockchainHash, u32)>, u64), BlockchainError>)
        requires
            utxo_set.wf(),
        ensures
            r is Ok <==> (if check_reserved {
                spec_tx_admissible(utxo_set.utxos(), utxo_set.reserved_keys(), tx@)
            } else {
                spec_tx_valid_in_block(utxo_set.utxos(), tx@)
            }),
            r matches Ok(p) ==> {
                &&& p.0.deep_view() == spec_tx_input_keys(tx@)
                &&& p.1 == spec_tx_fee(utxo_set.utxos(), tx@)
            },
            r matches Err(e) ==> spec_tx_err_kind(
                utxo_set.utxos(),
                utxo_set.reserved_keys(),
                tx@,
                check_reserved,
                e,
            ),
    {
        let ghost u = utxo_set.utxos();
        match tx.verify_signatures() {
            Ok(_) => {},
            Err(e) => {
                return Err(BlockchainError::SignatureError(e));
            },
        }
        let mut used: Vec<(BlockchainHash, u32)> = Vec::new();
        let mut total_in: u128 = 0;
        let mut i: usize = 0;
        while i < tx.inputs.len()
            invariant
                utxo_set.wf(),
                u == utxo_set.utxos(),
                i <= tx.inputs@.len(),
                used.deep_view() =~= spec_tx_input_keys(tx@).take(i as int),
                total_in == spec_sum_in(u, tx@.inputs.take(i as int)),
                total_in <= i * (u64::MAX as int),
                forall|a: int, b: int|
                    0 <= a < b < i ==> spec_input_key(#[trigger] tx@.inputs[a]) != spec_input_key(
                        #[trigger] tx@.inputs[b],
                    ),
                forall|a: int|
                    0 <= a < i ==> u.contains_key(spec_input_key(#[trigger] tx@.inputs[a])),
                forall|a: int|
                    0 <= a < i ==> u[spec_input_key(#[trigger] tx@.inputs[a])].script_pubkey
                        == (ScriptV::PayToPublicKeyHash {
                        pub_key_hash: spec_p2pkh_hash(
                            spec_pubkey_part(tx@.inputs[a].script_sig),
                        ),
                    }),
                check_reserved ==> forall|a: int|
                    0 <= a < i ==> !utxo_set.reserved_keys().contains(
                        spec_input_key(#[trigger] tx@.inputs[a]),
                    ),
            decreases tx.inputs@.len() - i,
        {
            let input = &tx.inputs[i];
            let utxo_key = (input.prev_tx_id.clone(), input.prev_out_idx);
            proof {
                assert(utxo_key.deep_view() == spec_input_key(tx@.inputs[i as int]));
            }
            if check_reserved && utxo_set.is_reserved(&utxo_key) {
                proof {
                    assert(!spec_inputs_unreserved(utxo_set.reserved_keys(), tx@));
                    assert(spec_tx_input_keys(tx@)[i as int] == utxo_key.deep_view());
                    assert(spec_tx_input_keys(tx@).contains(utxo_key.deep_view()));
                }
                return Err(
                    BlockchainError::DoubleSpendAttempt {
                        tx_id: utxo_key.0,
                        out_idx: utxo_key.1,
                    },
                );
            }
            let mut j: usize = 0;
            while j < i
                invariant
                    i < tx.inputs@.len(),
                    j <= i,
                    utxo_key.deep_view() == spec_input_key(tx@.inputs[i as int]),
                    forall|a: int|
                        0 <= a < j ==> spec_input_key(#[trigger] tx@.inputs[a]) != spec_input_key(
                            tx@.inputs[i as int],
                        ),
                decreases i - j,
            {
                let prev = &tx.inputs[j];
                if prev.prev_tx_id == utxo_key.0 && prev.prev_out_idx == utxo_key.1 {
                    proof {
                        assert(spec_input_key(tx@.inputs[j as int]) == spec_input_key(
                            tx@.inputs[i as int],
                        ));
                        assert(!spec_inputs_unique(tx@));
                        assert(spec_tx_input_keys(tx@)[i as int] == utxo_key.deep_view());
                        assert(spec_tx_input_keys(tx@).contains(utxo_key.deep_view()));
                    }
                    return Err(
                        BlockchainError::DoubleSpendAttempt {
                            tx_id: utxo_key.0,
                            out_idx: utxo_key.1,
                        },
                    );
                }
                proof {
                    assert(spec_input_key(tx@.inputs[j as int]) != spec_input_key(
                        tx@.inputs[i as int],
                    ));
                }
                j = j + 1;
            }
            let prev_utxo = match utxo_set.get(&utxo_key) {
                Some(o) => o,
                None => {
                    proof {
                        assert(!spec_inputs_present(u, tx@));
                        assert(spec_tx_input_keys(tx@)[i as int] == utxo_key.deep_view());
                        assert(spec_tx_input_keys(tx@).contains(utxo_key.deep_view()));
                    }
                    return Err(
                        BlockchainError::UtxoNotFound {
                            tx_id: utxo_key.0,
                            out_idx: utxo_key.1,
                        },
                    );
                },
            };
            let verifier = match input.script_sig.get_verifier() {
                Ok(v) => v,
                Err(e) => {
                    proof {
                        assert(!spec_script_sig_ok(tx@.inputs[i as int].script_sig));
                        assert(!spec_sigs_valid(tx@));
                    }
                    return Err(BlockchainError::SignatureError(e));
                },
            };
            let addr_matches = match &prev_utxo.script_pubkey {
                crate::scripts::Script::PayToPublicKeyHash { pub_key_hash } => {
                    *pub_key_hash == *verifier.pub_key_hash()
                },
            };
            if !addr_matches {
                proof {
                    assert(u[spec_input_key(tx@.inputs[i as int])].script_pubkey
                        != (ScriptV::PayToPublicKeyHash {
                        pub_key_hash: spec_p2pkh_hash(
                            spec_pubkey_part(tx@.inputs[i as int].script_sig),
                        ),
                    }));
                    assert(!spec_inputs_addr_match(u, tx@));
                }
                return Err(
                    BlockchainError::InvalidPublicKey(
                        "Public key hash mismatch in P2PKH script".to_string(),
                    ),
                );
            }
            let value = prev_utxo.value;
            let ghost pre_used = used.deep_view();
            used.push(utxo_key);
            proof {
                assert(forall|m: int|
                    0 <= m < pre_used.len() ==> #[trigger] used.deep_view()[m] == pre_used[m]);
                assert(used.deep_view()[pre_used.len() as int] == spec_input_key(
                    tx@.inputs[i as int],
                ));
                assert(spec_tx_input_keys(tx@).take(i + 1).drop_last() =~= spec_tx_input_keys(
                    tx@,
                ).take(i as int));
                assert(used.deep_view() =~= spec_tx_input_keys(tx@).take(i + 1));
                assert(tx@.inputs.take(i + 1).drop_last() =~= tx@.inputs.take(i as int));
                assert(tx@.inputs.take(i + 1).last() == tx@.inputs[i as int]);
                assert(total_in + value == spec_sum_in(u, tx@.inputs.take(i + 1)));
                assert(total_in + value <= (i + 1) * (u64::MAX as int)) by (nonlinear_arith)
                    requires
                        total_in <= i * (u64::MAX as int),
                        value <= u64::MAX,
                        i >= 0,
                ;
            }
            total_in = total_in + value as u128;
            i = i + 1;
        }
        proof {
            assert(tx@.inputs.take(tx@.inputs.len() as int) =~= tx@.inputs);
            assert(spec_tx_input_keys(tx@).take(tx@.inputs.len() as int) =~= spec_tx_input_keys(
                tx@,
            ));
        }
        let mut total_out: u128 = 0;
        let mut o: usize = 0;
        while o < tx.outputs.len()
            invariant
                o <= tx.outputs@.len(),
                total_out == spec_sum_out(tx@.outputs.take(o as int)),
                total_out <= o * (u64::MAX as int),
                forall|a: int| 0 <= a < o ==> (#[trigger] tx@.outputs[a]).value > 0,
            decreases tx.outputs@.len() - o,
        {
            let out = &tx.outputs[o];
            if out.value == 0 {
                proof {
                    assert(tx@.outputs[o as int] == out@);
                    assert((tx@.outputs[o as int]).value == 0);
                    assert(!spec_outputs_positive(tx@));
                }
                return Err(
                    BlockchainError::InvalidTransaction(
                        "Transaction output value cannot be zero".to_string(),
                    ),
                );
            }
            proof {
                assert(tx@.outputs.take(o + 1).drop_last() =~= tx@.outputs.take(o as int));
                assert(tx@.outputs.take(o + 1).last() == tx@.outputs[o as int]);
                assert(total_out + out.value <= (o + 1) * (u64::MAX as int)) by (nonlinear_arith)
                    requires
                        total_out <= o * (u64::MAX as int),
                        out.value <= u64::MAX,
                        o >= 0,
                ;
            }
            total_out = total_out + out.value as u128;
            o = o + 1;
        }
        proof {
            assert(tx@.outputs.take(tx@.outputs.len() as int) =~= tx@.outputs);
        }
        if total_in < total_out {
            return Err(BlockchainError::InsufficientFunds);
        }
        let fee_wide: u128 = total_in - total_out;
        if fee_wide > u64::MAX as u128 {
            return Err(BlockchainError::InvalidFee("Fee exceeds representable range".to_string()));
        }
        let fee: u64 = fee_wide as u64;
        Ok((used, fee))
    }
}

/// The mempool after removing the ids of a list of transactions.
pub open spec fn spec_remove_tx_ids(
    m: Map<Seq<u8>, TransactionV>,
    ts: Seq<TransactionV>,
) -> Map<Seq<u8>, TransactionV>
    decreases ts.len(),
{
    if ts.len() == 0 {
        m
    } else {
        spec_remove_tx_ids(m, ts.drop_last()).remove(ts.last().id)
    }
}

proof fn lemma_height_map_remove_last(a: Seq<BlockV>)
    requires
        crate::storage::spec_sorted_heights(a),
        a.len() > 0,
    ensures
        crate::storage::spec_height_map(a).remove(a.last().height)
            == crate::storage::spec_height_map(a.drop_last()),
{
    crate::storage::lemma_height_map_contains(a.drop_last(), a.last().height);
    assert(forall|i: int| 0 <= i < a.drop_last().len() ==> #[trigger] a.drop_last()[i] == a[i]);
    assert(!crate::storage::spec_height_map(a.drop_last()).contains_key(a.last().height));
    assert(crate::storage::spec_height_map(a) == crate::storage::spec_height_map(
        a.drop_last(),
    ).insert(a.last().height, a.last()));
    assert(crate::storage::spec_height_map(a.drop_last()).insert(
        a.last().height,
        a.last(),
    ).remove(a.last().height) =~= crate::storage::spec_height_map(a.drop_last()));
}

/// Two strictly height-sorted lists that denote the same height map are
/// the same list.
proof fn lemma_sorted_blocks_unique(a: Seq<BlockV>, b: Seq<BlockV>)
    requires
        crate::storage::spec_sorted_heights(a),
        crate::storage::spec_sorted_heights(b),
        crate::storage::spec_height_map(a) == crate::storage::spec_height_map(b),
    ensures
        a =~= b,
    decreases a.len(),
{
    if a.len() == 0 {
        if b.len() > 0 {
            crate::storage::lemma_height_map_index(b, b.len() - 1);
            assert(false);
        }
    } else if b.len() == 0 {
        crate::storage::lemma_height_map_index(a, a.len() - 1);
        assert(false);
    } else {
        let m = crate::storage::spec_height_map(a);
        crate::storage::lemma_height_map_index(a, a.len() - 1);
        crate::storage::lemma_height_map_index(b, b.len() - 1);
        assert forall|h: u64| m.contains_key(h) implies h <= a.last().height by {
            crate::storage::lemma_height_map_contains(a, h);
            let i = choose|i: int| 0 <= i < a.len() && (#[trigger] a[i]).height == h;
            if i < a.len() - 1 {
                assert(a[i].height < a[a.len() - 1].height);
            }
        }
        assert forall|h: u64| m.contains_key(h) implies h <= b.last().height by {
            crate::storage::lemma_height_map_contains(b, h);
            let i = choose|i: int| 0 <= i < b.len() && (#[trigger] b[i]).height == h;
            if i < b.len() - 1 {
                assert(b[i].height < b[b.len() - 1].height);
            }
        }
        assert(a.last().height == b.last().height);
        assert(a.last() == b.last());
        lemma_height_map_remove_last(a);
        lemma_height_map_remove_last(b);
        assert(crate::storage::spec_sorted_heights(a.drop_last())) by {
            assert(forall|i: int|
                0 <= i < a.drop_last().len() ==> #[trigger] a.drop_last()[i] == a[i]);
        }
        assert(crate::storage::spec_sorted_heights(b.drop_last())) by {
            assert(forall|i: int|
                0 <= i < b.drop_last().len() ==> #[trigger] b.drop_last()[i] == b[i]);
        }
        lemma_sorted_blocks_unique(a.drop_last(), b.drop_last());
        assert(a =~= a.drop_last().push(a.last()));
        assert(b =~= b.drop_last().push(b.last()));
    }
}

/// A strictly sorted list whose entries all sit in a map that it covers
/// denotes that map exactly.
proof fn lemma_height_map_reconstruct(m: Map<u64, BlockV>, v: Seq<BlockV>)
    requires
        crate::storage::spec_sorted_heights(v),
        forall|i: int|
            0 <= i < v.len() ==> m.contains_key((#[trigger] v[i]).height) && m[v[i].height] == v[i],
        spec_covers(m, v),
    ensures
        crate::storage::spec_height_map(v) == m,
{
    let hm = crate::storage::spec_height_map(v);
    assert forall|h: u64| #![auto] hm.contains_key(h) == m.contains_key(h) by {
        if hm.contains_key(h) {
            crate::storage::lemma_height_map_contains(v, h);
            let i = choose|i: int| 0 <= i < v.len() && (#[trigger] v[i]).height == h;
            assert(m.contains_key(v[i].height));
        }
        if m.contains_key(h) {
            let i = choose|i: int| 0 <= i < v.len() && (#[trigger] v[i]).height == h;
            crate::storage::lemma_height_map_index(v, i);
        }
    }
    assert forall|h: u64| hm.contains_key(h) implies #[trigger] hm[h] == m[h] by {
        crate::storage::lemma_height_map_contains(v, h);
        let i = choose|i: int| 0 <= i < v.len() && (#[trigger] v[i]).height == h;
        crate::storage::lemma_height_map_index(v, i);
        assert(m.contains_key(v[i].height) && m[v[i].height] == v[i]);
    }
    assert(hm.dom() =~= m.dom());
    assert(hm =~= m);
}

/// A store matches a chain when it holds exactly the chain's blocks,
/// keyed by their heights.
pub open spec fn spec_storage_matches(m: Map<u64, BlockV>, v: Seq<BlockV>) -> bool {
    &&& (forall|h: u64|
        h < v.len() ==> #[trigger] m.contains_key(h) && m[h] == v[h as int])
    &&& (forall|h: u64| m.contains_key(h) ==> h < v.len())
}

/// The map's keys are exactly the heights below `n`.
pub open spec fn spec_covers_range(m: Map<u64, BlockV>, n: u64) -> bool {
    forall|h: u64| m.contains_key(h) <==> h < n
}

/// The store holds blocks at exactly the contiguous heights from zero up
/// to some positive bound: the shape every consistent chain store has.
pub open spec fn spec_contiguous_from_zero(m: Map<u64, BlockV>) -> bool {
    exists|n: u64| n > 0 && spec_covers_range(m, n)
}

/// In a strictly height-sorted list, the height at an index is at least
/// that index.
proof fn lemma_sorted_height_lower(v: Seq<BlockV>, i: int)
    requires
        crate::storage::spec_sorted_heights(v),
        0 <= i < v.len(),
    ensures
        v[i].height >= i,
    decreases i,
{
    if i > 0 {
        lemma_sorted_height_lower(v, i - 1);
        assert(v[i - 1].height < v[i].height);
    }
}

/// A chain list with index-equal heights pins the height map's shape.
proof fn lemma_storage_matches(m: Map<u64, BlockV>, v: Seq<BlockV>)
    requires
        crate::storage::spec_height_map(v) == m,
        crate::storage::spec_sorted_heights(v),
        v.len() <= u64::MAX,
        forall|i: int| 0 <= i < v.len() ==> (#[trigger] v[i]).height == i as u64,
    ensures
        spec_storage_matches(m, v),
{
    assert forall|h: u64| h < v.len() implies #[trigger] m.contains_key(h) && m[h]
        == v[h as int] by {
        crate::storage::lemma_height_map_index(v, h as int);
        assert(v[h as int].height == h);
    }
    assert forall|h: u64| m.contains_key(h) implies h < v.len() by {
        crate::storage::lemma_height_map_contains(v, h);
        let w = choose|w: int| 0 <= w < v.len() && (#[trigger] v[w]).height == h;
    }
}

/// The position of the first block whose height is not its index, if any.
fn first_height_mismatch(blocks: &Vec<Block>) -> (r: Option<usize>)
    ensures
        r is None ==> forall|j: int|
            0 <= j < blocks@.len() ==> (#[trigger] blocks.deep_view()[j]).height == j as u64,
        r matches Some(i) ==> {
            &&& i < blocks@.len()
            &&& (forall|j: int|
                0 <= j < i ==> (#[trigger] blocks.deep_view()[j]).height == j as u64)
            &&& blocks.deep_view()[i as int].height != i as u64
        },
{
    let mut i: usize = 0;
    while i < blocks.len()
        invariant
            i <= blocks@.len(),
            forall|j: int| 0 <= j < i ==> (#[trigger] blocks.deep_view()[j]).height == j as u64,
        decreases blocks@.len() - i,
    {
        let expected: u64 = i as u64;
        if blocks[i].height != expected {
            proof {
                assert(blocks.deep_view()[i as int].height != i as u64);
            }
            return Some(i);
        }
        proof {
            assert(blocks.deep_view()[i as int].height == i as u64);
        }
        i = i + 1;
    }
    None
}

impl<S: Storage> Blockchain<S> {
    /// Whether the mempool holds nothing yet.
    pub closed spec fn mempool_is_empty(&self) -> bool {
        self.mempool@.len() == 0
    }

    /// A fresh, uninitialized engine around a storage handle and the local
    /// miner's address. `init` brings it to a ready state.
    pub fn new(storage: S, miner_address: PublicKeyHash) -> (r: Blockchain<S>)
        ensures
            r.mempool_is_empty(),
            r.storage_blocks() == storage.blocks(),
    {
        Blockchain {
            mempool: Vec::new(),
            utxo_set: UTXOSet::new(),
            storage,
            current_tip_hash: BlockchainHash::default(),
            current_tip_block: Block::genesis(),
            miner_address,
            history: Ghost(Seq::empty()),
        }
    }

    /// Replays the UTXO delta of each block, in order, into a cleared set.
    fn replay(&mut self, blocks: &Vec<Block>) -> (r: ())
        ensures
            final(self).utxo_set.wf(),
            final(self).utxos() == spec_utxo_after_blocks(blocks.deep_view()),
            final(self).reserved() == Set::<KeyV>::empty(),
            final(self).mempool@ == old(self).mempool@,
            final(self).current_tip_block == old(self).current_tip_block,
            final(self).current_tip_hash == old(self).current_tip_hash,
            final(self).storage == old(self).storage,
            final(self).history == old(self).history,
    {
        self.utxo_set.clear();
        let mut i: usize = 0;
        while i < blocks.len()
            invariant
                i <= blocks@.len(),
                self.utxo_set.wf(),
                self.utxos() == spec_utxo_after_blocks(blocks.deep_view().take(i as int)),
                self.reserved() == Set::<KeyV>::empty(),
                self.mempool@ == old(self).mempool@,
                self.current_tip_block == old(self).current_tip_block,
                self.current_tip_hash == old(self).current_tip_hash,
                self.storage == old(self).storage,
                self.history == old(self).history,
            decreases blocks@.len() - i,
        {
            let block = &blocks[i];
            let ghost base = self.utxos();
            let (additions, removals) = block.get_utxos();
            let mut k: usize = 0;
            while k < removals.len()
                invariant
                    k <= removals@.len(),
                    self.utxo_set.wf(),
                    removals.deep_view() == spec_block_removals(blocks.deep_view()[i as int]),
                    0 <= i < blocks.deep_view().len(),
                    self.utxos() == spec_remove_keys(base, removals.deep_view().take(k as int)),
                    self.reserved() == Set::<KeyV>::empty(),
                    self.mempool@ == old(self).mempool@,
                    self.current_tip_block == old(self).current_tip_block,
                    self.current_tip_hash == old(self).current_tip_hash,
                    self.storage == old(self).storage,
                    self.history == old(self).history,
                decreases removals@.len() - k,
            {
                self.utxo_set.remove(&removals[k]);
                proof {
                    assert(removals.deep_view().take(k + 1).drop_last() =~= removals.deep_view()
                        .take(k as int));
                    assert(removals.deep_view().take(k + 1).last() == removals.deep_view()[
                        k as int
                    ]);
                    assert(removals@[k as int].deep_view() == removals.deep_view()[k as int]);
                    assert(Set::<KeyV>::empty().remove(removals.deep_view()[k as int])
                        =~= Set::<KeyV>::empty());
                }
                k = k + 1;
            }
            proof {
                assert(removals.deep_view().take(removals@.len() as int)
                    =~= removals.deep_view());
            }
            let ghost mid = self.utxos();
            let mut a: usize = 0;
            while a < additions.len()
                invariant
                    a <= additions@.len(),
                    self.utxo_set.wf(),
                    additions.deep_view() == spec_block_additions(blocks.deep_view()[i as int]),
                    0 <= i < blocks.deep_view().len(),
                    self.utxos() == spec_insert_entries(
                        mid,
                        additions.deep_view().take(a as int),
                    ),
                    self.reserved() == Set::<KeyV>::empty(),
                    self.mempool@ == old(self).mempool@,
                    self.current_tip_block == old(self).current_tip_block,
                    self.current_tip_hash == old(self).current_tip_hash,
                    self.storage == old(self).storage,
                    self.history == old(self).history,
                decreases additions@.len() - a,
            {
                let entry = &additions[a];
                let key = (entry.0.0.clone(), entry.0.1);
                let value = entry.1.clone();
                self.utxo_set.insert(key, value);
                proof {
                    assert(additions.deep_view().take(a + 1).drop_last() =~= additions.deep_view()
                        .take(a as int));
                    assert(additions.deep_view().take(a + 1).last() == additions.deep_view()[
                        a as int
                    ]);
                    assert(additions@[a as int].deep_view() == additions.deep_view()[a as int]);
                }
                a = a + 1;
            }
            proof {
                assert(additions.deep_view().take(additions@.len() as int)
                    =~= additions.deep_view());
                assert(blocks.deep_view().take(i + 1).drop_last() =~= blocks.deep_view().take(
                    i as int,
                ));
                assert(blocks.deep_view().take(i + 1).last() == blocks.deep_view()[i as int]);
                assert(self.utxos() == spec_apply_block_utxos(
                    base,
                    blocks.deep_view()[i as int],
                ));
            }
            i = i + 1;
        }
        proof {
            assert(blocks.deep_view().take(blocks@.len() as int) =~= blocks.deep_view());
        }
    }

    /// Loads the chain from storage (minting and persisting genesis into
    /// an empty store), then rebuilds the UTXO set by replaying it. On
    /// success the engine is ready. A store whose heights are not the
    /// contiguous range from zero is refused as inconsistent.
    #[verifier::rlimit(80)]
    pub fn init(self) -> (r: Result<Blockchain<S>, BlockchainError>)
        requires
            self.mempool_is_empty(),
        ensures
            r matches Ok(e) ==> e.wf(),
            r matches Ok(e) ==> e.mempool_view() == Map::<Seq<u8>, TransactionV>::empty(),
            r matches Ok(e) ==> e.reserved() == Set::<KeyV>::empty(),
            r matches Ok(e) ==> e.utxos() == spec_utxo_after_blocks(e.history()),
            r matches Ok(e) ==> e.history().len() >= 1 && e.tip() == e.history().last(),
            r matches Ok(e) ==> (self.storage_blocks().dom() == Set::<u64>::empty()
                ==> e.tip() == spec_genesis_block() && e.history() =~= seq![
                spec_genesis_block(),
            ]),
            r matches Ok(e) ==> (self.storage_blocks().dom() != Set::<u64>::empty()
                ==> e.storage_blocks() == self.storage_blocks()),
            r matches Ok(e) ==> spec_storage_matches(e.storage_blocks(), e.history()),
            r matches Err(e) ==> (!(e is StorageError) ==> e is InconsistentStorage
                && !spec_contiguous_from_zero(self.storage_blocks())),
    {
        let mut this = self;
        let ghost m0 = this.storage.blocks();
        let ghost was_empty = this.storage.blocks().dom() == Set::<u64>::empty();
        match this.storage.get_latest_block() {
            Ok(_) => {},
            Err(StorageError::BlockNotFound) => {
                let genesis = Block::genesis();
                let saved = match this.storage.save_block(genesis) {
                    Ok(b) => b,
                    Err(e) => {
                        return Err(BlockchainError::StorageError(e));
                    },
                };
                match this.storage.set_latest_block_hash(&saved.hash) {
                    Ok(_) => {},
                    Err(e) => {
                        return Err(BlockchainError::StorageError(e));
                    },
                }
            },
            Err(e) => {
                return Err(BlockchainError::StorageError(e));
            },
        }
        let blocks = match this.storage.stream_blocks_by_height() {
            Ok(v) => v,
            Err(e) => {
                return Err(BlockchainError::StorageError(e));
            },
        };
        let ghost v = blocks.deep_view();
        if blocks.len() == 0 {
            proof {
                if was_empty {
                    assert(this.storage.blocks().contains_key(0u64));
                    let w = choose|w: int| 0 <= w < v.len() && (#[trigger] v[w]).height == 0u64;
                    assert(false);
                }
                assert(!spec_contiguous_from_zero(m0)) by {
                    if spec_contiguous_from_zero(m0) {
                        let nn = choose|nn: u64| nn > 0 && spec_covers_range(m0, nn);
                        assert(m0.contains_key(0u64));
                        let w = choose|w: int|
                            0 <= w < v.len() && (#[trigger] v[w]).height == 0u64;
                        assert(false);
                    }
                }
            }
            return Err(BlockchainError::InconsistentStorage);
        }
        match first_height_mismatch(&blocks) {
            None => {},
            Some(i) => {
                proof {
                    lemma_sorted_height_lower(v, i as int);
                    if was_empty {
                        assert(this.storage.blocks() == m0.insert(0u64, spec_genesis_block()));
                        assert(this.storage.blocks().dom() =~= Set::<u64>::empty().insert(0u64));
                        assert(this.storage.blocks().contains_key(v[i as int].height));
                        assert(v[i as int].height == 0u64);
                        if i == 0 {
                            assert(false);
                        } else {
                            assert(this.storage.blocks().contains_key(v[0].height));
                            assert(v[0].height == 0u64);
                            assert(v[0].height < v[i as int].height);
                            assert(false);
                        }
                    }
                    assert(this.storage.blocks() == m0);
                    assert(!spec_contiguous_from_zero(m0)) by {
                        if spec_contiguous_from_zero(m0) {
                            let nn = choose|nn: u64| nn > 0 && spec_covers_range(m0, nn);
                            assert(v[i as int].height >= i);
                            assert(v[i as int].height != i as u64);
                            assert(v[i as int].height > i as u64);
                            assert(m0.contains_key(v[i as int].height));
                            assert(v[i as int].height < nn);
                            assert(m0.contains_key(i as u64));
                            let j = choose|j: int|
                                0 <= j < v.len() && (#[trigger] v[j]).height == i as u64;
                            if j < i {
                                assert(v[j].height == j as u64);
                                assert(false);
                            } else if j == i {
                                assert(false);
                            } else {
                                assert(v[i as int].height < v[j].height);
                                assert(false);
                            }
                        }
                    }
                }
                return Err(BlockchainError::InconsistentStorage);
            },
        }
        proof {
            lemma_height_map_reconstruct(this.storage.blocks(), blocks.deep_view());
        }
        let n = blocks.len();
        let tip = blocks[n - 1].clone();
        let tip_hash = tip.hash.clone();
        this.current_tip_block = tip;
        this.current_tip_hash = tip_hash;
        this.replay(&blocks);
        this.history = Ghost(blocks.deep_view());
        proof {
            assert(this.mempool.deep_view() =~= Seq::<(Seq<u8>, TransactionV, u64)>::empty());
            assert(this.mempool_view() =~= Map::<Seq<u8>, TransactionV>::empty());
            assert(this.wf()) by {
                assert(this.wf_pools());
                assert(this.wf_chain());
                lemma_storage_matches(this.storage.blocks(), this.history@);
                assert(spec_storage_matches(this.storage.blocks(), this.history@));
                assert(this.wf_storage());
                assert(this.utxos() == spec_utxo_after_blocks(this.history@));
            }
            if was_empty {
                let g = spec_genesis_block();
                assert(g.height == 0);
                assert(crate::storage::spec_sorted_heights(seq![g]));
                assert(crate::storage::spec_height_map(seq![g]) =~= Map::<u64, BlockV>::empty()
                    .insert(0u64, g)) by {
                    assert(seq![g].drop_last() =~= Seq::<BlockV>::empty());
                    assert(seq![g].last() == g);
                    assert(crate::storage::spec_height_map(Seq::<BlockV>::empty())
                        =~= Map::<u64, BlockV>::empty());
                }
                assert(this.storage.blocks() =~= Map::<u64, BlockV>::empty().insert(0u64, g));
                lemma_sorted_blocks_unique(blocks.deep_view(), seq![g]);
                assert(blocks.deep_view() =~= seq![g]);
                assert(this.history@.last() == g);
            }
            if !was_empty {
                assert(this.storage.blocks() == m0);
            }
            assert(spec_storage_matches(this.storage.blocks(), this.history@));
        }
        Ok(this)
    }

    /// Whether the mempool already holds a transaction with this id.
    fn mempool_contains(&self, id: &BlockchainHash) -> (r: bool)
        ensures
            r == self.mempool_view().contains_key(id@),
    {
        proof {
            lemma_mempool_contains(self.mempool.deep_view(), id@);
        }
        let mut i: usize = 0;
        while i < self.mempool.len()
            invariant
                i <= self.mempool@.len(),
                forall|j: int|
                    0 <= j < i ==> (#[trigger] self.mempool.deep_view()[j]).0 != id@,
            decreases self.mempool@.len() - i,
        {
            if self.mempool[i].0 == *id {
                proof {
                    assert(self.mempool.deep_view()[i as int].0 == id@);
                    lemma_mempool_contains(self.mempool.deep_view(), id@);
                }
                return true;
            }
            proof {
                assert(self.mempool.deep_view()[i as int].0 != id@);
            }
            i = i + 1;
        }
        proof {
            if self.mempool_view().contains_key(id@) {
                let w = choose|w: int|
                    0 <= w < self.mempool.deep_view().len() && (#[trigger] self.mempool.deep_view()[
                        w
                    ]).0 == id@;
                assert(false);
            }
        }
        false
    }

    /// Validates a transaction against the current UTXO set and
    /// reservations, without changing anything.
    pub fn validate_transaction(&self, tx: &Transaction) -> (r: Result<
        (Vec<(BlockchainHash, u32)>, u64),
        BlockchainError,
    >)
        requires
            self.wf(),
        ensures
            r is Ok <==> spec_tx_admissible(self.utxos(), self.reserved(), tx@),
            r matches Ok(p) ==> {
                &&& p.0.deep_view() == spec_tx_input_keys(tx@)
                &&& p.1 == spec_tx_fee(self.utxos(), tx@)
            },
            r matches Err(e) ==> spec_tx_err_kind(self.utxos(), self.reserved(), tx@, true, e),
    {
        Self::validate_against(&self.utxo_set, tx, true)
    }

    /// Admits a transaction into the mempool: it must be new, its
    /// signatures must verify, and it must spend existing, unreserved
    /// outpoints it can cover. On success every one of its inputs is
    /// reserved.
    pub fn add_transaction(&mut self, tx: Transaction) -> (r: Result<
        Transaction,
        BlockchainError,
    >)
        requires
            old(self).wf(),
        ensures
            final(self).wf(),
            r is Ok <==> (!old(self).mempool_view().contains_key(tx@.id) && spec_tx_admissible(
                old(self).utxos(),
                old(self).reserved(),
                tx@,
            )),
            r matches Ok(t) ==> t@ == tx@,
            r is Ok ==> final(self).mempool_view() == old(self).mempool_view().insert(
                tx@.id,
                tx@,
            ),
            r is Ok ==> final(self).reserved() == old(self).reserved().union(
                spec_tx_input_keys(tx@).to_set(),
            ),
            r is Ok ==> forall|i: int|
                0 <= i < tx@.inputs.len() ==> final(self).reserved().contains(
                    spec_input_key(#[trigger] tx@.inputs[i]),
                ),
            final(self).utxos() == old(self).utxos(),
            final(self).tip() == old(self).tip(),
            final(self).history() == old(self).history(),
            final(self).storage_blocks() == old(self).storage_blocks(),
            r is Err ==> final(self).mempool_view() == old(self).mempool_view(),
            r is Err ==> final(self).reserved() == old(self).reserved(),
            r matches Err(e) ==> (e is MempoolError <==> old(self).mempool_view().contains_key(
                tx@.id,
            )),
            r matches Err(e) ==> (!(e is MempoolError) ==> spec_tx_err_kind(
                old(self).utxos(),
                old(self).reserved(),
                tx@,
                true,
                e,
            )),
    {
        if self.mempool_contains(&tx.id) {
            return Err(BlockchainError::MempoolError("Transaction already exists".to_string()));
        }
        let validated = match Self::validate_against(&self.utxo_set, &tx, true) {
            Ok(p) => p,
            Err(e) => {
                return Err(e);
            },
        };
        let (used, fee) = validated;
        let entry = (tx.id.clone(), tx.clone(), fee);
        let ghost pre_pool = self.mempool.deep_view();
        self.mempool.push(entry);
        proof {
            assert(self.mempool.deep_view() =~= pre_pool.push((tx@.id, tx@, fee))) by {
                assert(forall|m: int|
                    0 <= m < pre_pool.len() ==> #[trigger] self.mempool.deep_view()[m]
                        == pre_pool[m]);
                assert(self.mempool.deep_view()[pre_pool.len() as int] == (tx@.id, tx@, fee));
            }
            assert(self.mempool.deep_view().drop_last() =~= pre_pool);
            assert(spec_mempool_uniq(self.mempool.deep_view())) by {
                lemma_mempool_contains(pre_pool, tx@.id);
                assert(forall|m: int|
                    0 <= m < pre_pool.len() ==> (#[trigger] pre_pool[m]).0 != tx@.id);
            }
            assert(self.mempool_view() == old(self).mempool_view().insert(tx@.id, tx@));
        }
        let ghost used_keys = used.deep_view();
        self.utxo_set.reserve(used);
        proof {
            assert(used_keys.to_set().intersect(old(self).utxos().dom()) =~= used_keys.to_set())
                by {
                assert forall|k: KeyV| used_keys.to_set().contains(k) implies old(self).utxos()
                    .dom().contains(k) by {
                    let w = choose|w: int| 0 <= w < used_keys.len() && used_keys[w] == k;
                    assert(used_keys[w] == spec_input_key(tx@.inputs[w]));
                    assert(old(self).utxos().contains_key(spec_input_key(tx@.inputs[w])));
                }
            }
            assert(final(self).reserved() == old(self).reserved().union(
                spec_tx_input_keys(tx@).to_set(),
            ));
            assert forall|i: int| 0 <= i < tx@.inputs.len() implies final(self).reserved()
                .contains(spec_input_key(#[trigger] tx@.inputs[i])) by {
                assert(spec_tx_input_keys(tx@)[i] == spec_input_key(tx@.inputs[i]));
                assert(spec_tx_input_keys(tx@).to_set().contains(spec_tx_input_keys(tx@)[i]));
            }
        }
        Ok(tx)
    }

    /// Drops the mempool entry with this id, if any.
    fn mempool_remove_id(&mut self, id: &BlockchainHash)
        requires
            spec_mempool_uniq(old(self).mempool.deep_view()),
        ensures
            spec_mempool_map(final(self).mempool.deep_view()) == spec_mempool_map(
                old(self).mempool.deep_view(),
            ).remove(id@),
            spec_mempool_uniq(final(self).mempool.deep_view()),
            forall|i: int|
                0 <= i < final(self).mempool@.len() ==> exists|j: int|
                    0 <= j < old(self).mempool@.len() && #[trigger] (final(self).mempool
                        .deep_view()[i]) == old(self).mempool.deep_view()[j],
            final(self).utxo_set == old(self).utxo_set,
            final(self).storage == old(self).storage,
            final(self).current_tip_block == old(self).current_tip_block,
            final(self).current_tip_hash == old(self).current_tip_hash,
            final(self).history == old(self).history,
    {
        let ghost pre = self.mempool.deep_view();
        let mut i: usize = 0;
        let mut found: bool = false;
        let mut at: usize = 0;
        while i < self.mempool.len()
            invariant
                i <= self.mempool@.len(),
                self.mempool.deep_view() == pre,
                !found ==> forall|j: int| 0 <= j < i ==> (#[trigger] pre[j]).0 != id@,
                found ==> at < pre.len() && pre[at as int].0 == id@,
            decreases self.mempool@.len() - i,
        {
            if !found {
                if self.mempool[i].0 == *id {
                    proof {
                        assert(pre[i as int].0 == id@);
                    }
                    found = true;
                    at = i;
                } else {
                    proof {
                        assert(pre[i as int].0 != id@);
                    }
                }
            }
            i = i + 1;
        }
        if found {
            proof {
                lemma_mempool_remove(pre, at as int);
            }
            self.mempool.remove(at);
            proof {
                assert(self.mempool.deep_view() =~= pre.remove(at as int)) by {
                    assert(forall|m: int|
                        0 <= m < self.mempool@.len() ==> #[trigger] self.mempool.deep_view()[m]
                            == if m < at {
                            pre[m]
                        } else {
                            pre[m + 1]
                        });
                }
                assert forall|m: int| 0 <= m < self.mempool@.len() implies exists|j: int|
                    0 <= j < pre.len() && #[trigger] self.mempool.deep_view()[m] == pre[j] by {
                    if m < at {
                        assert(self.mempool.deep_view()[m] == pre[m]);
                    } else {
                        assert(self.mempool.deep_view()[m] == pre[m + 1]);
                    }
                }
            }
        } else {
            proof {
                lemma_mempool_contains(pre, id@);
                if spec_mempool_map(pre).contains_key(id@) {
                    let w = choose|w: int| 0 <= w < pre.len() && (#[trigger] pre[w]).0 == id@;
                    assert(false);
                }
                assert(spec_mempool_map(pre).remove(id@) =~= spec_mempool_map(pre));
                assert forall|m: int| 0 <= m < self.mempool@.len() implies exists|j: int|
                    0 <= j < pre.len() && #[trigger] self.mempool.deep_view()[m] == pre[j] by {
                    assert(self.mempool.deep_view()[m] == pre[m]);
                }
            }
        }
    }

    /// Validates every non-coinbase transaction of a block against the
    /// UTXO set, sums their fees, and bounds the coinbase claim.
    fn validate_block_transactions(utxo_set: &UTXOSet, block: &Block) -> (r: Result<
        (),
        BlockchainError,
    >)
        requires
            utxo_set.wf(),
            block.transactions@.len() >= 1,
        ensures
            r is Ok <==> ((forall|i: int|
                1 <= i < block@.transactions.len() ==> spec_tx_valid_in_block(
                    utxo_set.utxos(),
                    #[trigger] block@.transactions[i],
                )) && spec_is_coinbase(block@.transactions[0]) && spec_sum_out(
                block@.transactions[0].outputs,
            ) <= BLOCK_REWARD + spec_fees_sum(utxo_set.utxos(), block@.transactions.skip(1))),
            r matches Err(e) ==> !(e is StorageError),
            r matches Err(e) ==> ((e is InvalidCoinbase && (!spec_is_coinbase(
                block@.transactions[0],
            ) || spec_sum_out(block@.transactions[0].outputs) > BLOCK_REWARD + spec_fees_sum(
                utxo_set.utxos(),
                block@.transactions.skip(1),
            ))) || exists|i: int|
                1 <= i < block@.transactions.len() && spec_tx_err_kind(
                    utxo_set.utxos(),
                    Set::empty(),
                    #[trigger] block@.transactions[i],
                    false,
                    e,
                )),
    {
        let ghost u = utxo_set.utxos();
        let ghost rest = block@.transactions.skip(1);
        let mut total_fees: u128 = 0;
        let mut i: usize = 1;
        while i < block.transactions.len()
            invariant
                utxo_set.wf(),
                u == utxo_set.utxos(),
                1 <= i <= block.transactions@.len(),
                rest == block@.transactions.skip(1),
                block.transactions@.len() >= 1,
                total_fees == spec_fees_sum(u, rest.take(i - 1)),
                total_fees <= (i - 1) * (u64::MAX as int),
                forall|j: int|
                    1 <= j < i ==> spec_tx_valid_in_block(u, #[trigger] block@.transactions[j]),
            decreases block.transactions@.len() - i,
        {
            let fee = match Self::validate_against(utxo_set, &block.transactions[i], false) {
                Ok(p) => p.1,
                Err(e) => {
                    proof {
                        assert(!spec_tx_valid_in_block(u, block@.transactions[i as int]));
                        assert(spec_tx_err_kind(
                            u,
                            Set::empty(),
                            block@.transactions[i as int],
                            false,
                            e,
                        ));
                    }
                    return Err(e);
                },
            };
            proof {
                assert(rest.take(i as int).drop_last() =~= rest.take(i - 1));
                assert(rest.take(i as int).last() == rest[i - 1]);
                assert(rest[i - 1] == block@.transactions[i as int]);
                assert(total_fees + fee <= i * (u64::MAX as int)) by (nonlinear_arith)
                    requires
                        total_fees <= (i - 1) * (u64::MAX as int),
                        fee <= u64::MAX,
                        i >= 1,
                ;
            }
            total_fees = total_fees + fee as u128;
            i = i + 1;
        }
        proof {
            assert(rest.take(block.transactions@.len() - 1) =~= rest);
        }
        let first = &block.transactions[0];
        if !first.is_coinbase() {
            return Err(
                BlockchainError::InvalidCoinbase(
                    "Coinbase transaction has invalid inputs".to_string(),
                ),
            );
        }
        let mut coinbase_out: u128 = 0;
        let mut o: usize = 0;
        while o < first.outputs.len()
            invariant
                o <= first.outputs@.len(),
                first@ == block@.transactions[0],
                block.transactions@.len() >= 1,
                coinbase_out == spec_sum_out(block@.transactions[0].outputs.take(o as int)),
                coinbase_out <= o * (u64::MAX as int),
            decreases first.outputs@.len() - o,
        {
            let out = &first.outputs[o];
            proof {
                assert(block@.transactions[0].outputs.take(o + 1).drop_last()
                    =~= block@.transactions[0].outputs.take(o as int));
                assert(block@.transactions[0].outputs.take(o + 1).last()
                    == block@.transactions[0].outputs[o as int]);
                assert(coinbase_out + out.value <= (o + 1) * (u64::MAX as int))
                    by (nonlinear_arith)
                    requires
                        coinbase_out <= o * (u64::MAX as int),
                        out.value <= u64::MAX,
                        o >= 0,
                ;
            }
            coinbase_out = coinbase_out + out.value as u128;
            o = o + 1;
        }
        proof {
            assert(block@.transactions[0].outputs.take(block@.transactions[0].outputs.len() as int)
                =~= block@.transactions[0].outputs);
            assert(total_fees + BLOCK_REWARD <= u128::MAX) by (nonlinear_arith)
                requires
                    0 <= total_fees,
                    total_fees <= (block.transactions@.len() - 1) * (u64::MAX as int),
                    block.transactions@.len() - 1 <= u64::MAX,
            ;
        }
        let allowed: u128 = BLOCK_REWARD as u128 + total_fees;
        if coinbase_out > allowed {
            return Err(
                BlockchainError::InvalidCoinbase(
                    "Coinbase output value exceeds allowed limit".to_string(),
                ),
            );
        }
        Ok(())
    }

    /// Validates a block against this engine's state and an explicit
    /// clock reading, then commits it: UTXO delta applied, confirmed
    /// transactions dropped from the mempool, block persisted, tip
    /// advanced. Failure before the store was touched leaves everything
    /// unchanged; only a failing store can leave a partial write, and
    /// `init`'s rebuild recovers from that.
    #[verifier::rlimit(100)]
    #[verifier::spinoff_prover]
    pub fn add_block_at(&mut self, block: Block, now: u128) -> (r: Result<(), BlockchainError>)
        requires
            old(self).wf(),
        ensures
            final(self).wf(),
            r is Ok ==> spec_block_valid(old(self).utxos(), old(self).tip(), block@, now),
            !spec_block_valid(old(self).utxos(), old(self).tip(), block@, now) ==> r is Err,
            r is Ok ==> final(self).tip() == block@,
            r is Ok ==> final(self).history() == old(self).history().push(block@),
            r is Ok ==> final(self).utxos() == spec_apply_block_utxos(old(self).utxos(), block@),
            r is Ok ==> final(self).reserved() == spec_unreserve(
                old(self).reserved(),
                spec_block_removals(block@),
            ),
            r is Ok ==> final(self).mempool_view() == spec_remove_tx_ids(
                old(self).mempool_view(),
                block@.transactions,
            ),
            r is Ok ==> final(self).storage_blocks() == old(self).storage_blocks().insert(
                block@.height,
                block@,
            ),
            r is Ok ==> final(self).storage_latest() == Some(block@.hash),
            (r matches Err(e) && !(e is StorageError)) ==> {
                &&& final(self).utxos() == old(self).utxos()
                &&& final(self).reserved() == old(self).reserved()
                &&& final(self).mempool_view() == old(self).mempool_view()
                &&& final(self).tip() == old(self).tip()
                &&& final(self).history() == old(self).history()
                &&& final(self).storage_blocks() == old(self).storage_blocks()
            },
            (r matches Err(e) && !(e is StorageError)) ==> !spec_block_valid(
                old(self).utxos(),
                old(self).tip(),
                block@,
                now,
            ),
            r matches Err(e) ==> (!(e is StorageError) ==> spec_block_err_kind(
                old(self).utxos(),
                old(self).tip(),
                block@,
                now,
                e,
            )),
    {
        let ghost u = self.utxos();
        let ghost old_tip = self.tip();
        let ghost old_blocks = self.storage.blocks();
        let ghost old_hist = self.history@;
        proof {
            assert(spec_storage_matches(old_blocks, old_hist));
        }
        if !(block.height > 0 && block.height - 1 == self.current_tip_block.height) {
            return Err(BlockchainError::InvalidBlock("Block height is incorrect".to_string()));
        }
        if block.height == u64::MAX {
            return Err(BlockchainError::InvalidBlock("Block height is incorrect".to_string()));
        }
        if !(block.prev_block_hash == self.current_tip_hash) {
            return Err(
                BlockchainError::InvalidBlock(
                    "Block hash do not match previous hash".to_string(),
                ),
            );
        }
        match block.verify_merkle_root() {
            Ok(_) => {},
            Err(e) => {
                return Err(e);
            },
        }
        match block.verify_timestamp_plausibility_at(now) {
            Ok(_) => {},
            Err(e) => {
                return Err(e);
            },
        }
        match block.validate_proof_of_work() {
            Ok(_) => {},
            Err(e) => {
                return Err(e);
            },
        }
        match Self::validate_block_transactions(&self.utxo_set, &block) {
            Ok(_) => {},
            Err(e) => {
                return Err(e);
            },
        }
        proof {
            assert(spec_block_valid(u, old_tip, block@, now));
        }
        let (additions, removals) = block.get_utxos();
        let ghost bv = block@;
        let saved = match self.storage.save_block(block) {
            Ok(b) => b,
            Err(e) => {
                return Err(BlockchainError::StorageError(e));
            },
        };
        let latest_result = self.storage.set_latest_block_hash(&saved.hash);
        let ghost st = self.storage;
        let ghost tip_pre = self.current_tip_block;
        let ghost tip_hash_pre = self.current_tip_hash;
        let ghost hist_pre = self.history;
        let ghost pool_pre = self.mempool@;
        let mut k: usize = 0;
        while k < removals.len()
            invariant
                k <= removals@.len(),
                self.utxo_set.wf(),
                removals.deep_view() == spec_block_removals(bv),
                self.utxos() == spec_remove_keys(u, removals.deep_view().take(k as int)),
                self.reserved() == spec_unreserve(
                    old(self).reserved(),
                    removals.deep_view().take(k as int),
                ),
                self.mempool@ == pool_pre,
                self.storage == st,
                self.current_tip_block == tip_pre,
                self.current_tip_hash == tip_hash_pre,
                self.history == hist_pre,
            decreases removals@.len() - k,
        {
            self.utxo_set.remove(&removals[k]);
            proof {
                assert(removals.deep_view().take(k + 1).drop_last() =~= removals.deep_view().take(
                    k as int,
                ));
                assert(removals.deep_view().take(k + 1).last() == removals.deep_view()[k as int]);
                assert(removals@[k as int].deep_view() == removals.deep_view()[k as int]);
            }
            k = k + 1;
        }
        proof {
            assert(removals.deep_view().take(removals@.len() as int) =~= removals.deep_view());
        }
        let ghost mid = self.utxos();
        let mut a: usize = 0;
        while a < additions.len()
            invariant
                a <= additions@.len(),
                self.utxo_set.wf(),
                additions.deep_view() == spec_block_additions(bv),
                self.utxos() == spec_insert_entries(mid, additions.deep_view().take(a as int)),
                self.reserved() == spec_unreserve(old(self).reserved(), spec_block_removals(bv)),
                self.mempool@ == pool_pre,
                self.storage == st,
                self.current_tip_block == tip_pre,
                self.current_tip_hash == tip_hash_pre,
                self.history == hist_pre,
            decreases additions@.len() - a,
        {
            let entry = &additions[a];
            let key = (entry.0.0.clone(), entry.0.1);
            let value = entry.1.clone();
            self.utxo_set.insert(key, value);
            proof {
                assert(additions.deep_view().take(a + 1).drop_last() =~= additions.deep_view()
                    .take(a as int));
                assert(additions.deep_view().take(a + 1).last() == additions.deep_view()[
                    a as int
                ]);
                assert(additions@[a as int].deep_view() == additions.deep_view()[a as int]);
            }
            a = a + 1;
        }
        proof {
            assert(additions.deep_view().take(additions@.len() as int) =~= additions.deep_view());
            assert(self.utxos() == spec_apply_block_utxos(u, bv));
        }
        let ghost old_mv = spec_mempool_map(old(self).mempool.deep_view());
        let mut t: usize = 0;
        while t < saved.transactions.len()
            invariant
                t <= saved.transactions@.len(),
                saved@ == bv,
                self.utxo_set.wf(),
                self.utxos() == spec_apply_block_utxos(u, bv),
                self.reserved() == spec_unreserve(old(self).reserved(), spec_block_removals(bv)),
                spec_mempool_uniq(self.mempool.deep_view()),
                spec_mempool_map(self.mempool.deep_view()) == spec_remove_tx_ids(
                    old_mv,
                    bv.transactions.take(t as int),
                ),
                forall|m: int|
                    0 <= m < self.mempool@.len() ==> exists|j: int|
                        0 <= j < pool_pre.len() && #[trigger] self.mempool.deep_view()[m]
                            == pool_pre[j].deep_view(),
                self.storage == st,
                self.current_tip_block == tip_pre,
                self.current_tip_hash == tip_hash_pre,
                self.history == hist_pre,
            decreases saved.transactions@.len() - t,
        {
            let id = saved.transactions[t].id.clone();
            let ghost pre_pool = self.mempool.deep_view();
            self.mempool_remove_id(&id);
            proof {
                assert(bv.transactions.take(t + 1).drop_last() =~= bv.transactions.take(t as int));
                assert(bv.transactions.take(t + 1).last() == bv.transactions[t as int]);
                assert(id@ == bv.transactions[t as int].id);
                assert forall|m: int| 0 <= m < self.mempool@.len() implies exists|j: int|
                    0 <= j < pool_pre.len() && #[trigger] self.mempool.deep_view()[m]
                        == pool_pre[j].deep_view() by {
                    let w = choose|w: int|
                        0 <= w < pre_pool.len() && #[trigger] self.mempool.deep_view()[m]
                            == pre_pool[w];
                }
            }
            t = t + 1;
        }
        proof {
            assert(bv.transactions.take(saved.transactions@.len() as int) =~= bv.transactions);
        }
        let new_hash = saved.hash.clone();
        self.current_tip_hash = new_hash;
        self.current_tip_block = saved;
        self.history = Ghost(self.history@.push(bv));
        proof {
            let h = self.history@;
            assert(h.drop_last() =~= old(self).history());
            assert(h.last() == bv);
            assert(self.wf()) by {
                assert(self.wf_pools()) by {
                    assert(pool_pre == old(self).mempool@);
                    assert(forall|j: int|
                        0 <= j < pool_pre.len() ==> #[trigger] pool_pre[j].deep_view() == old(
                            self,
                        ).mempool.deep_view()[j]);
                    assert(forall|j: int|
                        0 <= j < pool_pre.len() ==> (#[trigger] pool_pre[j].deep_view()).0
                            == pool_pre[j].deep_view().1.id);
                    assert(forall|m: int|
                        0 <= m < self.mempool@.len() ==> (#[trigger] self.mempool.deep_view()[
                            m
                        ]).0 == self.mempool.deep_view()[m].1.id) by {
                        assert(forall|m: int, j: int|
                            0 <= m < self.mempool@.len() && 0 <= j < pool_pre.len()
                                && #[trigger] self.mempool.deep_view()[m] == #[trigger] pool_pre[
                                j
                            ].deep_view() ==> self.mempool.deep_view()[m].0
                                == self.mempool.deep_view()[m].1.id);
                    }
                }
                assert(self.wf_chain()) by {
                    assert(bv.height == old(self).history().len());
                    assert(forall|m: int|
                        0 <= m < h.len() ==> (#[trigger] h[m]).height == m as u64) by {
                        assert(forall|m: int|
                            0 <= m < h.len() - 1 ==> #[trigger] h[m] == old(self).history()[m]);
                    }
                }
                assert(self.wf_storage()) by {
                    let new_blocks = old_blocks.insert(bv.height, bv);
                    assert(self.storage.blocks() == new_blocks);
                    assert(spec_storage_matches(new_blocks, h)) by {
                        assert(spec_storage_matches(old_blocks, old_hist));
                        assert forall|hh: u64| hh < h.len() implies #[trigger] new_blocks
                            .contains_key(hh) && new_blocks[hh] == h[hh as int] by {
                            if hh < h.len() - 1 {
                                assert(old_blocks.contains_key(hh) && old_blocks[hh] == old_hist[
                                    hh as int
                                ]);
                                assert(hh != bv.height);
                                assert(h[hh as int] == old_hist[hh as int]);
                            } else {
                                assert(hh == bv.height);
                            }
                        }
                        assert forall|hh: u64| new_blocks.contains_key(
                            hh,
                        ) implies hh < h.len() by {
                            if hh != bv.height {
                                assert(old_blocks.contains_key(hh));
                            }
                        }
                    }
                }
                assert(self.utxos() == spec_utxo_after_blocks(h)) by {
                    assert(spec_utxo_after_blocks(h) == spec_apply_block_utxos(
                        spec_utxo_after_blocks(h.drop_last()),
                        h.last(),
                    ));
                    assert(spec_utxo_after_blocks(h.drop_last()) == u);
                }
            }
        }
        match latest_result {
            Ok(_) => Ok(()),
            Err(e) => Err(BlockchainError::StorageError(e)),
        }
    }

    /// The timestamp rule applied to the validator's own clock; otherwise
    /// exactly `add_block_at`.
    pub fn add_block(&mut self, block: Block) -> (r: Result<(), BlockchainError>)
        requires
            old(self).wf(),
        ensures
            final(self).wf(),
            r is Ok ==> final(self).tip() == block@,
            r is Ok ==> final(self).history() == old(self).history().push(block@),
            r is Ok ==> final(self).utxos() == spec_apply_block_utxos(old(self).utxos(), block@),
            r is Ok ==> final(self).reserved() == spec_unreserve(
                old(self).reserved(),
                spec_block_removals(block@),
            ),
            r is Ok ==> final(self).mempool_view() == spec_remove_tx_ids(
                old(self).mempool_view(),
                block@.transactions,
            ),
            r is Ok ==> final(self).storage_blocks() == old(self).storage_blocks().insert(
                block@.height,
                block@,
            ),
            r is Ok ==> final(self).storage_latest() == Some(block@.hash),
            r is Ok ==> exists|now: u128|
                spec_block_valid(old(self).utxos(), old(self).tip(), block@, now),
            (r matches Err(e) && !(e is StorageError)) ==> {
                &&& final(self).utxos() == old(self).utxos()
                &&& final(self).reserved() == old(self).reserved()
                &&& final(self).mempool_view() == old(self).mempool_view()
                &&& final(self).tip() == old(self).tip()
                &&& final(self).history() == old(self).history()
                &&& final(self).storage_blocks() == old(self).storage_blocks()
            },
            r matches Err(e) ==> (!(e is StorageError) ==> exists|now: u128|
                spec_block_err_kind(old(self).utxos(), old(self).tip(), block@, now, e)
                    && !spec_block_valid(old(self).utxos(), old(self).tip(), block@, now)),
    {
        let now = now_millis();
        self.add_block_at(block, now)
    }

    /// Drains the mempool into a freshly mined block: a coinbase paying
    /// the local miner the block reward plus the pending fees, then every
    /// pending transaction, mined at the next height and applied. A
    /// rejected block leaves the engine consistent but the drained
    /// transactions are not returned to the mempool.
    pub fn mine_pending_transactions(&mut self) -> (r: Result<(), BlockchainError>)
        requires
            old(self).wf(),
        ensures
            final(self).wf(),
            r is Ok ==> final(self).mempool_view() == Map::<Seq<u8>, TransactionV>::empty(),
            r is Ok ==> final(self).tip().height == old(self).tip().height + 1,
            r is Ok ==> final(self).tip().prev_block_hash == old(self).tip().hash,
            r is Ok ==> final(self).history() == old(self).history().push(final(self).tip()),
            r is Ok ==> final(self).utxos() == spec_apply_block_utxos(
                old(self).utxos(),
                final(self).tip(),
            ),
            r is Ok ==> final(self).tip().transactions == seq![
                spec_coinbase_tx(
                    old(self).miner_addr(),
                    spec_mining_reward(old(self).mempool_fees()),
                ),
            ] + old(self).mempool_txs(),
            r is Ok ==> final(self).storage_latest() == Some(final(self).tip().hash),
            old(self).tip().height == u64::MAX ==> (r matches Err(e) && e is InvalidBlock),
    {
        if self.current_tip_block.height == u64::MAX {
            return Err(BlockchainError::InvalidBlock("Chain height exhausted".to_string()));
        }
        let mut entries: Vec<(BlockchainHash, Transaction, u64)> = Vec::new();
        std::mem::swap(&mut entries, &mut self.mempool);
        proof {
            assert(self.mempool.deep_view() =~= Seq::<(Seq<u8>, TransactionV, u64)>::empty());
            assert(self.mempool_view() =~= Map::<Seq<u8>, TransactionV>::empty());
        }
        let ghost pool = entries.deep_view();
        let mut total_fees: u128 = 0;
        let mut fi: usize = 0;
        while fi < entries.len()
            invariant
                fi <= entries@.len(),
                pool == entries.deep_view(),
                total_fees == spec_fee_total(pool.take(fi as int)),
                total_fees <= fi * (u64::MAX as int),
            decreases entries@.len() - fi,
        {
            let fee = entries[fi].2;
            proof {
                assert(pool.take(fi + 1).drop_last() =~= pool.take(fi as int));
                assert(pool.take(fi + 1).last() == pool[fi as int]);
                assert(pool[fi as int].2 == fee);
                assert(total_fees + fee <= (fi + 1) * (u64::MAX as int)) by (nonlinear_arith)
                    requires
                        total_fees <= fi * (u64::MAX as int),
                        fee <= u64::MAX,
                        fi >= 0,
                ;
                assert((fi + 1) * (u64::MAX as int) <= (entries@.len() + 1) * (u64::MAX as int))
                    by (nonlinear_arith)
                    requires
                        fi + 1 <= entries@.len() + 1,
                ;
                assert((entries@.len() + 1) * (u64::MAX as int) < u128::MAX) by (nonlinear_arith)
                    requires
                        entries@.len() <= usize::MAX,
                        usize::MAX <= u64::MAX,
                ;
            }
            total_fees = total_fees + fee as u128;
            fi = fi + 1;
        }
        proof {
            assert(pool.take(entries@.len() as int) =~= pool);
        }
        let reward_wide: u128 = BLOCK_REWARD as u128 + total_fees;
        let reward: u64 = if reward_wide > u64::MAX as u128 {
            u64::MAX
        } else {
            reward_wide as u64
        };
        let ghost cb = spec_coinbase_tx(old(self).miner_addr(), spec_mining_reward(
            old(self).mempool_fees(),
        ));
        let coinbase = Transaction::coinbase_transaction(&self.miner_address, reward);
        proof {
            assert(reward == spec_mining_reward(old(self).mempool_fees()));
            assert(coinbase@ == cb);
        }
        let mut transactions: Vec<Transaction> = Vec::new();
        transactions.push(coinbase);
        proof {
            assert(transactions.deep_view() =~= seq![cb]);
        }
        let ghost drained_txs = Seq::new(pool.len(), |i: int| pool[i].1);
        let mut ti: usize = 0;
        while ti < entries.len()
            invariant
                ti <= entries@.len(),
                pool == entries.deep_view(),
                drained_txs == Seq::new(pool.len(), |i: int| pool[i].1),
                transactions.deep_view() =~= seq![cb] + drained_txs.take(ti as int),
            decreases entries@.len() - ti,
        {
            let tx = entries[ti].1.clone();
            let ghost pre = transactions.deep_view();
            transactions.push(tx);
            proof {
                assert(forall|m: int|
                    0 <= m < pre.len() ==> #[trigger] transactions.deep_view()[m] == pre[m]);
                assert(transactions.deep_view()[pre.len() as int] == pool[ti as int].1);
                assert(drained_txs[ti as int] == pool[ti as int].1);
                assert(transactions.deep_view() =~= seq![cb] + drained_txs.take(ti + 1));
            }
            ti = ti + 1;
        }
        proof {
            assert(drained_txs.take(entries@.len() as int) =~= drained_txs);
            assert(transactions.deep_view() =~= seq![cb] + drained_txs);
            assert(drained_txs =~= old(self).mempool_txs());
        }
        let height = self.current_tip_block.height + 1;
        let prev = self.current_tip_hash.clone();
        let block = match Block::new(height, transactions, prev) {
            Ok(b) => b,
            Err(e) => {
                return Err(e);
            },
        };
        let ghost drained = *self;
        let ghost block_view = block@;
        let result = self.add_block(block);
        proof {
            if result is Ok {
                lemma_remove_tx_ids_empty(final(self).tip().transactions);
                let now = choose|now: u128|
                    spec_block_valid(drained.utxos(), drained.tip(), final(self).tip(), now);
                assert(final(self).tip() == block_view);
                assert(block_view.transactions =~= seq![cb] + old(self).mempool_txs());
            }
        }
        result
    }

    /// Every block of the chain, genesis first.
    pub fn get_blocks(&self) -> (r: Result<Vec<Block>, BlockchainError>)
        requires
            self.wf(),
        ensures
            r matches Ok(v) ==> v.deep_view() == self.history(),
            r matches Err(e) ==> e is StorageError,
    {
        let blocks = match self.storage.stream_blocks_by_height() {
            Ok(v) => v,
            Err(e) => {
                return Err(BlockchainError::StorageError(e));
            },
        };
        proof {
            self.lemma_streamed_is_history(blocks.deep_view());
        }
        Ok(blocks)
    }

    /// Under this engine's invariant, any strictly sorted, complete
    /// listing of storage is the chain itself.
    proof fn lemma_streamed_is_history(&self, v: Seq<BlockV>)
        requires
            self.wf(),
            crate::storage::spec_sorted_heights(v),
            forall|i: int|
                0 <= i < v.len() ==> self.storage.blocks().contains_key(
                    (#[trigger] v[i]).height,
                ) && self.storage.blocks()[v[i].height] == v[i],
            spec_covers(self.storage.blocks(), v),
        ensures
            v == self.history(),
    {
        let h = self.history@;
        let m = self.storage.blocks();
        lemma_height_map_reconstruct(m, v);
        assert(crate::storage::spec_sorted_heights(h)) by {
            assert(forall|a: int, b: int|
                0 <= a < b < h.len() ==> (#[trigger] h[a]).height < (#[trigger] h[b]).height);
        }
        lemma_height_map_reconstruct_chain(m, h);
        lemma_sorted_blocks_unique(v, h);
    }

    /// Rebuilds the UTXO set by replaying the chain from storage. Under
    /// the engine invariant the result is the map already held, and every
    /// mempool reservation is dropped.
    pub fn rebuild_utxo_set(&mut self) -> (r: Result<(), BlockchainError>)
        requires
            old(self).wf(),
        ensures
            final(self).wf(),
            r is Ok ==> final(self).utxos() == old(self).utxos(),
            r is Ok ==> final(self).reserved() == Set::<KeyV>::empty(),
            final(self).mempool_view() == old(self).mempool_view(),
            final(self).tip() == old(self).tip(),
            final(self).history() == old(self).history(),
            final(self).storage_blocks() == old(self).storage_blocks(),
            r is Err ==> final(self).utxos() == old(self).utxos() && final(self).reserved()
                == old(self).reserved(),
            r matches Err(e) ==> e is StorageError,
    {
        let blocks = match self.storage.stream_blocks_by_height() {
            Ok(v) => v,
            Err(e) => {
                return Err(BlockchainError::StorageError(e));
            },
        };
        proof {
            self.lemma_streamed_is_history(blocks.deep_view());
        }
        self.replay(&blocks);
        Ok(())
    }

    /// Every unspent output locked to an address.
    pub fn get_utxos_by_address(&self, address: PublicKeyHash) -> (r: Vec<UTXO>)
        requires
            self.wf(),
        ensures
            forall|i: int|
                0 <= i < r@.len() ==> {
                    let uv = #[trigger] r.deep_view()[i];
                    &&& self.utxos().contains_key((uv.prev_tx_id, uv.prev_out_idx))
                    &&& self.utxos()[(uv.prev_tx_id, uv.prev_out_idx)].script_pubkey
                        == (ScriptV::PayToPublicKeyHash { pub_key_hash: address@ })
                    &&& self.utxos()[(uv.prev_tx_id, uv.prev_out_idx)].value == uv.value
                },
            forall|k: KeyV|
                #[trigger] self.utxos().contains_key(k) && self.utxos()[k].script_pubkey
                    == (ScriptV::PayToPublicKeyHash { pub_key_hash: address@ }) ==> exists|i: int|
                    0 <= i < r@.len() && ((#[trigger] r.deep_view()[i]).prev_tx_id,
                    r.deep_view()[i].prev_out_idx) == k,
            forall|i: int, j: int|
                0 <= i < j < r@.len() ==> ((#[trigger] r.deep_view()[i]).prev_tx_id,
                r.deep_view()[i].prev_out_idx) != ((#[trigger] r.deep_view()[j]).prev_tx_id,
                r.deep_view()[j].prev_out_idx),
    {
        self.utxo_set.get_utxos_by_address(address)
    }

    /// The original exposes this as a stub that always succeeds; chain
    /// validation proper lives in `add_block`.
    pub fn validate_chain(&self) -> (r: bool)
        ensures
            r == true,
    {
        true
    }
}

/// Removing ids from an empty mempool leaves it empty.
proof fn lemma_remove_tx_ids_empty(ts: Seq<TransactionV>)
    ensures
        spec_remove_tx_ids(Map::<Seq<u8>, TransactionV>::empty(), ts) == Map::<
            Seq<u8>,
            TransactionV,
        >::empty(),
    decreases ts.len(),
{
    if ts.len() > 0 {
        lemma_remove_tx_ids_empty(ts.drop_last());
        assert(spec_remove_tx_ids(Map::<Seq<u8>, TransactionV>::empty(), ts) =~= Map::<
            Seq<u8>,
            TransactionV,
        >::empty());
    }
}

/// The engine invariant makes storage the height map of the chain.
proof fn lemma_height_map_reconstruct_chain(m: Map<u64, BlockV>, h: Seq<BlockV>)
    requires
        forall|hh: u64| hh < h.len() ==> #[trigger] m.contains_key(hh) && m[hh] == h[hh as int],
        forall|hh: u64| m.contains_key(hh) ==> hh < h.len(),
        h.len() <= u64::MAX,
        forall|i: int| 0 <= i < h.len() ==> (#[trigger] h[i]).height == i as u64,
    ensures
        crate::storage::spec_height_map(h) == m,
{
    assert(crate::storage::spec_sorted_heights(h)) by {
        assert(forall|a: int, b: int|
            0 <= a < b < h.len() ==> (#[trigger] h[a]).height < (#[trigger] h[b]).height);
    }
    lemma_height_map_reconstruct(m, h);
}

} // verus!
