//! Blocks: header hashing, Merkle commitment over transaction ids,
//! difficulty targets, proof-of-work and timestamp checks, mining, and the
//! UTXO delta a block induces.

use vstd::prelude::*;
use vstd::bytes::{
    spec_u128_to_le_bytes, spec_u32_to_le_bytes, spec_u64_to_le_bytes, u128_to_le_bytes,
    u32_to_le_bytes, u64_to_le_bytes,
};

use crate::blockchain::BlockchainError;
use crate::clock::now_millis;
use crate::crypto::{double_sha256, sha256, sha256_of, spec_double_sha256};
use crate::keys::blockchain_hash::{spec_lex_le, spec_zero_hash};
use crate::keys::BlockchainHash;
use crate::codec;
use crate::transaction::{
    spec_coinbase_tx, spec_genesis_addr, spec_is_coinbase, spec_tx_id, Transaction, TransactionV,
    TxOut, TxOutV, GENESIS_BLOCK_REWARD,
};

verus! {

/// How far into the future a block timestamp may lie: two hours, in
/// milliseconds.
pub const TIMESTAMP_FUTURITY_TOLERANCE_MILLIS: u128 = 7200000;

/// The difficulty every block this node mines is stamped with: the number
/// of leading zero bits its header hash must show.
pub const DEFAULT_BITS: u32 = 2;

/// The fixed timestamp of the genesis block.
pub const GENESIS_TIMESTAMP: u128 = 1231006505;

/// The view of a [`Block`].
#[verifier::ext_equal]
pub ghost struct BlockV {
    pub height: u64,
    pub timestamp: u128,
    pub transactions: Seq<TransactionV>,
    pub prev_block_hash: Seq<u8>,
    pub merkle_root: Seq<u8>,
    pub bits: u32,
    pub nonce: u64,
    pub hash: Seq<u8>,
}

/// A block: a header committing to a transaction list by Merkle root, plus
/// the transactions themselves.
#[derive(Debug)]
pub struct Block {
    pub height: u64,
    pub timestamp: u128,
    pub transactions: Vec<Transaction>,
    pub prev_block_hash: BlockchainHash,
    pub merkle_root: BlockchainHash,
    pub bits: u32,
    pub nonce: u64,
    pub hash: BlockchainHash,
}

impl View for Block {
    type V = BlockV;

    open spec fn view(&self) -> BlockV {
        BlockV {
            height: self.height,
            timestamp: self.timestamp,
            transactions: self.transactions.deep_view(),
            prev_block_hash: self.prev_block_hash@,
            merkle_root: self.merkle_root@,
            bits: self.bits,
            nonce: self.nonce,
            hash: self.hash@,
        }
    }
}

impl DeepView for Block {
    type V = BlockV;

    open spec fn deep_view(&self) -> BlockV {
        self.view()
    }
}

impl Clone for Block {
    fn clone(&self) -> (r: Self)
        ensures
            r@ == self@,
    {
        let mut transactions: Vec<Transaction> = Vec::new();
        let mut i: usize = 0;
        while i < self.transactions.len()
            invariant
                i <= self.transactions.len(),
                transactions.deep_view() =~= self.transactions.deep_view().take(i as int),
            decreases self.transactions.len() - i,
        {
            let x = self.transactions[i].clone();
            proof {
                assert(self.transactions.deep_view().len() == self.transactions@.len());
                assert(transactions.deep_view().len() == transactions@.len());
                assert(transactions@.len() == i as int);
            }
            transactions.push(x);
            proof {
                assert(transactions@[i as int]@ == self.transactions@[i as int]@);
                assert(transactions.deep_view() =~= self.transactions.deep_view().take(i + 1));
            }
            i = i + 1;
        }
        proof {
            assert(self.transactions.deep_view().take(self.transactions@.len() as int)
                =~= self.transactions.deep_view());
        }
        let r = Block {
            height: self.height,
            timestamp: self.timestamp,
            transactions,
            prev_block_hash: self.prev_block_hash.clone(),
            merkle_root: self.merkle_root.clone(),
            bits: self.bits,
            nonce: self.nonce,
            hash: self.hash.clone(),
        };
        assert(r@ =~= self@);
        r
    }
}

/// The canonical encoding of a block header: the six header fields, fixed
/// little-endian. Transactions are not part of it.
pub open spec fn spec_encode_header(
    height: u64,
    timestamp: u128,
    prev_block_hash: Seq<u8>,
    merkle_root: Seq<u8>,
    bits: u32,
    nonce: u64,
) -> Seq<u8> {
    spec_u64_to_le_bytes(height) + spec_u128_to_le_bytes(timestamp) + prev_block_hash + merkle_root
        + spec_u32_to_le_bytes(bits) + spec_u64_to_le_bytes(nonce)
}

/// A block's header hash: double-SHA-256 of the encoded header.
pub open spec fn spec_header_hash(b: BlockV) -> Seq<u8> {
    spec_double_sha256(
        spec_encode_header(b.height, b.timestamp, b.prev_block_hash, b.merkle_root, b.bits, b.nonce),
    )
}

/// The Merkle leaves of a transaction list: each transaction's id,
/// recomputed from its bytes.
pub open spec fn spec_leaves(ts: Seq<TransactionV>) -> Seq<Seq<u8>> {
    Seq::new(ts.len(), |i: int| spec_tx_id(ts[i]))
}

/// One level up the Merkle tree: adjacent pairs hashed with a single
/// SHA-256. The level must have even length.
pub open spec fn spec_merkle_pair_up(l: Seq<Seq<u8>>) -> Seq<Seq<u8>> {
    Seq::new(l.len() / 2, |i: int| sha256_of(l[2 * i] + l[2 * i + 1]))
}

/// One step of the Merkle computation: duplicate the last hash when the
/// level is odd, then pair up.
pub open spec fn spec_merkle_step(l: Seq<Seq<u8>>) -> Seq<Seq<u8>> {
    if l.len() % 2 == 1 {
        spec_merkle_pair_up(l.push(l.last()))
    } else {
        spec_merkle_pair_up(l)
    }
}

/// The Merkle root of a non-empty level: repeat the step until one hash
/// remains.
pub open spec fn spec_merkle_root(l: Seq<Seq<u8>>) -> Seq<u8>
    recommends
        l.len() >= 1,
    decreases l.len(),
{
    if l.len() <= 1 {
        if l.len() == 1 {
            l[0]
        } else {
            Seq::empty()
        }
    } else {
        spec_merkle_root(spec_merkle_step(l))
    }
}

/// The Merkle root a block must commit to.
pub open spec fn spec_block_merkle_root(b: BlockV) -> Seq<u8> {
    spec_merkle_root(spec_leaves(b.transactions))
}

/// One byte of the difficulty target for a leading-zero-bits difficulty:
/// the top `bits` bits of the 32-byte word cleared, every other bit set.
pub open spec fn spec_target_byte(bits: u32, i: int) -> u8 {
    if bits >= 8 * (i + 1) {
        0u8
    } else if bits <= 8 * i {
        0xFFu8
    } else {
        (0xFFu8 >> (bits - 8 * i) as u32) as u8
    }
}

/// The 32-byte difficulty target derived from `bits`.
pub open spec fn spec_target(bits: u32) -> Seq<u8> {
    Seq::new(32, |i: int| spec_target_byte(bits, i))
}

/// No nonce value yields a header hash meeting the difficulty target for
/// these block parts.
pub open spec fn spec_no_nonce_meets(
    height: u64,
    timestamp: u128,
    transactions: Seq<TransactionV>,
    prev_block_hash: Seq<u8>,
    bits: u32,
) -> bool {
    forall|n: u64|
        !spec_pow_ok(
            #[trigger] spec_assembled_block(
                height,
                timestamp,
                transactions,
                prev_block_hash,
                bits,
                n,
            ),
        )
}

/// A block meets proof of work when its stored hash is the recomputed
/// header hash, is not zero, and does not exceed the target for its bits.
pub open spec fn spec_pow_ok(b: BlockV) -> bool {
    &&& spec_header_hash(b) != spec_zero_hash()
    &&& spec_lex_le(spec_header_hash(b), spec_target(b.bits))
    &&& b.hash == spec_header_hash(b)
}

/// A timestamp is plausible when it does not lie more than the tolerance
/// beyond the validator's reading of the clock.
pub open spec fn spec_timestamp_plausible(timestamp: u128, now: u128) -> bool {
    timestamp <= now + TIMESTAMP_FUTURITY_TOLERANCE_MILLIS
}

/// The canonical header bytes of this block.
fn encode_header(
    height: u64,
    timestamp: u128,
    prev_block_hash: &BlockchainHash,
    merkle_root: &BlockchainHash,
    bits: u32,
    nonce: u64,
) -> (r: Vec<u8>)
    ensures
        r@ == spec_encode_header(height, timestamp, prev_block_hash@, merkle_root@, bits, nonce),
{
    let mut out: Vec<u8> = Vec::new();
    let mut h = u64_to_le_bytes(height);
    out.append(&mut h);
    let mut ts = u128_to_le_bytes(timestamp);
    out.append(&mut ts);
    let mut prev = vstd::slice::slice_to_vec(prev_block_hash.as_ref());
    out.append(&mut prev);
    let mut merkle = vstd::slice::slice_to_vec(merkle_root.as_ref());
    out.append(&mut merkle);
    let mut b = u32_to_le_bytes(bits);
    out.append(&mut b);
    let mut n = u64_to_le_bytes(nonce);
    out.append(&mut n);
    assert(out@ =~= spec_encode_header(
        height,
        timestamp,
        prev_block_hash@,
        merkle_root@,
        bits,
        nonce,
    ));
    out
}

/// A vector of bytes deep-views to its own view.
proof fn lemma_vec_u8_deep_view(v: &Vec<u8>)
    ensures
        v.deep_view() == v@,
{
    assert(v.deep_view() =~= v@);
}

/// Byte-wise dominance gives lexicographic order.
proof fn lemma_bytewise_le_implies_lex_le(a: Seq<u8>, b: Seq<u8>)
    requires
        a.len() == b.len(),
        forall|i: int| 0 <= i < a.len() ==> a[i] <= b[i],
    ensures
        spec_lex_le(a, b),
    decreases a.len(),
{
    if a.len() > 0 {
        if a[0] == b[0] {
            assert(forall|i: int| 0 <= i < a.skip(1).len() ==> a.skip(1)[i] <= b.skip(1)[i]);
            lemma_bytewise_le_implies_lex_le(a.skip(1), b.skip(1));
        }
    }
}

/// Difficulty is monotone: a smaller bits value yields a target at least
/// as large in the lexicographic order used for the proof-of-work check.
pub proof fn lemma_difficulty_monotone(bits1: u32, bits2: u32)
    requires
        bits1 < bits2,
    ensures
        spec_lex_le(spec_target(bits2), spec_target(bits1)),
{
    assert forall|i: int| 0 <= i < 32 implies spec_target(bits2)[i] <= spec_target(bits1)[i] by {
        let x1 = spec_target_byte(bits1, i);
        let x2 = spec_target_byte(bits2, i);
        if bits2 >= 8 * (i + 1) {
            assert(x2 == 0u8);
        } else if bits1 <= 8 * i {
            assert(x1 == 0xFFu8);
            if bits2 > 8 * i {
                let k2: u32 = (bits2 - 8 * i) as u32;
                assert(0 < k2 < 8);
                assert((0xFFu8 >> k2) <= 0xFFu8) by (bit_vector)
                    requires
                        0 < k2 < 8,
                ;
            }
        } else {
            let k1: u32 = (bits1 - 8 * i) as u32;
            let k2: u32 = (bits2 - 8 * i) as u32;
            assert(0 < k1 < 8 && k1 < k2);
            if bits2 >= 8 * (i + 1) {
                assert(x2 == 0u8);
            } else {
                assert(k2 < 8);
                assert((0xFFu8 >> k2) <= (0xFFu8 >> k1)) by (bit_vector)
                    requires
                        0 < k1 < 8,
                        k1 < k2,
                        k2 < 8,
                ;
            }
        }
    }
    lemma_bytewise_le_implies_lex_le(spec_target(bits2), spec_target(bits1));
}

impl Block {
    /// The header hash recomputed from this block's header fields.
    pub fn calculate_hash(&self) -> (r: BlockchainHash)
        ensures
            r@ == spec_header_hash(self@),
    {
        let bytes = encode_header(
            self.height,
            self.timestamp,
            &self.prev_block_hash,
            &self.merkle_root,
            self.bits,
            self.nonce,
        );
        BlockchainHash::new(double_sha256(bytes.as_slice()))
    }

    /// The difficulty target for a bits value: the top `bits` bits of a
    /// 32-byte word cleared, the rest set.
    pub fn get_difficulty_target_from_bits(bits: u32) -> (r: Result<
        BlockchainHash,
        BlockchainError,
    >)
        ensures
            r is Ok,
            r matches Ok(h) ==> h@ == spec_target(bits),
    {
        let mut target: Vec<u8> = Vec::new();
        let mut i: usize = 0;
        while i < 32
            invariant
                i <= 32,
                target@.len() == i,
                forall|k: int| 0 <= k < i ==> target@[k] == spec_target_byte(bits, k),
            decreases 32 - i,
        {
            let lo: u64 = 8 * (i as u64);
            let byte: u8 = if bits as u64 >= lo + 8 {
                0u8
            } else if bits as u64 <= lo {
                0xFFu8
            } else {
                let k: u32 = bits - 8 * (i as u32);
                assert(0 < k < 8);
                0xFFu8 >> k
            };
            target.push(byte);
            i = i + 1;
        }
        assert(target@ =~= spec_target(bits));
        Ok(BlockchainHash::new(target))
    }

    /// The Merkle root over a transaction list: leaves are recomputed
    /// transaction ids; an odd level duplicates its last hash; pairs are
    /// combined with a single SHA-256. An empty list is an error.
    pub fn calculate_merkle_root(transactions: &Vec<Transaction>) -> (r: Result<
        BlockchainHash,
        String,
    >)
        ensures
            r is Ok <==> transactions@.len() > 0,
            r matches Ok(h) ==> h@ == spec_merkle_root(spec_leaves(transactions.deep_view())),
    {
        if transactions.len() == 0 {
            return Err("Block must contain at least one transaction (coinbase)".to_string());
        }
        let mut leaves: Vec<Vec<u8>> = Vec::new();
        let mut i: usize = 0;
        while i < transactions.len()
            invariant
                i <= transactions.len(),
                leaves.deep_view() =~= spec_leaves(transactions.deep_view()).take(i as int),
                forall|k: int| 0 <= k < leaves@.len() ==> (#[trigger] leaves@[k])@.len() == 32,
            decreases transactions.len() - i,
        {
            proof {
                assert(leaves.deep_view().len() == leaves@.len());
                assert(spec_leaves(transactions.deep_view()).take(i as int).len() == i as int);
            }
            let id = transactions[i].calculate_id();
            proof {
                use_type_invariant(&id);
            }
            let id_bytes = vstd::slice::slice_to_vec(id.as_ref());
            leaves.push(id_bytes);
            proof {
                lemma_vec_u8_deep_view(&id_bytes);
                assert(leaves.deep_view()[i as int] == id_bytes@);
                assert(id_bytes@ == spec_tx_id(transactions.deep_view()[i as int]));
                assert(leaves.deep_view() =~= spec_leaves(transactions.deep_view()).take(i + 1));
            }
            i = i + 1;
        }
        proof {
            assert(spec_leaves(transactions.deep_view()).take(transactions@.len() as int)
                =~= spec_leaves(transactions.deep_view()));
        }
        let ghost orig = spec_leaves(transactions.deep_view());
        while leaves.len() > 1
            invariant
                leaves@.len() >= 1,
                spec_merkle_root(leaves.deep_view()) == spec_merkle_root(orig),
                forall|k: int| 0 <= k < leaves@.len() ==> (#[trigger] leaves@[k])@.len() == 32,
            decreases leaves@.len(),
        {
            let ghost level_in = leaves.deep_view();
            if leaves.len() % 2 != 0 {
                let last = {
                    let l = &leaves[leaves.len() - 1];
                    let c = l.clone();
                    assert(c@ =~= l@);
                    c
                };
                proof {
                    lemma_vec_u8_deep_view(&last);
                }
                leaves.push(last);
                proof {
                    lemma_vec_u8_deep_view(&leaves[leaves@.len() - 1]);
                    assert(leaves.deep_view() =~= level_in.push(level_in.last()));
                    assert(spec_merkle_step(level_in) == spec_merkle_pair_up(leaves.deep_view()));
                    assert(spec_merkle_step(leaves.deep_view()) == spec_merkle_pair_up(
                        leaves.deep_view(),
                    ));
                }
            }
            let ghost padded = leaves.deep_view();
            proof {
                assert(padded.len() % 2 == 0);
                assert(spec_merkle_root(padded) == spec_merkle_root(orig));
                assert(spec_merkle_step(padded) == spec_merkle_pair_up(padded));
            }
            let mut next: Vec<Vec<u8>> = Vec::new();
            let mut j: usize = 0;
            while j + 1 < leaves.len()
                invariant
                    leaves.deep_view() == padded,
                    padded.len() % 2 == 0,
                    padded.len() >= 2,
                    j % 2 == 0,
                    j <= leaves@.len(),
                    next.deep_view() =~= spec_merkle_pair_up(padded).take(j as int / 2),
                    forall|k: int| 0 <= k < next@.len() ==> (#[trigger] next@[k])@.len() == 32,
                decreases leaves@.len() - j,
            {
                proof {
                    lemma_vec_u8_deep_view(&leaves[j as int]);
                    lemma_vec_u8_deep_view(&leaves[j as int + 1]);
                }
                let mut combined = {
                    let l = &leaves[j];
                    let c = l.clone();
                    assert(c@ =~= l@);
                    c
                };
                let mut right = {
                    let l = &leaves[j + 1];
                    let c = l.clone();
                    assert(c@ =~= l@);
                    c
                };
                combined.append(&mut right);
                assert(combined@ =~= padded[j as int] + padded[j as int + 1]);
                let hashed = sha256(combined.as_slice());
                proof {
                    assert(next.deep_view().len() == next@.len());
                    assert(spec_merkle_pair_up(padded).take(j as int / 2).len() == j as int / 2);
                    lemma_vec_u8_deep_view(&hashed);
                    assert(2 * (j as int / 2) == j as int);
                }
                next.push(hashed);
                proof {
                    assert(next.deep_view()[j as int / 2] == hashed@);
                    assert(hashed@ == spec_merkle_pair_up(padded)[j as int / 2]);
                    assert(next.deep_view() =~= spec_merkle_pair_up(padded).take(j as int / 2 + 1));
                }
                j = j + 2;
            }
            proof {
                assert(j == padded.len());
                assert(spec_merkle_pair_up(padded).take(padded.len() as int / 2)
                    =~= spec_merkle_pair_up(padded));
            }
            leaves = next;
            proof {
                assert(leaves.deep_view() == spec_merkle_pair_up(padded));
                assert(spec_merkle_root(padded) == spec_merkle_root(spec_merkle_step(padded)));
                assert(leaves.deep_view().len() == padded.len() / 2);
                assert(leaves.deep_view().len() < padded.len());
                assert(leaves.deep_view().len() >= 1);
            }
        }
        let root = {
            let l = &leaves[0];
            let c = l.clone();
            assert(c@ =~= l@);
            c
        };
        proof {
            assert(leaves.deep_view().len() == 1);
            assert(spec_merkle_root(leaves.deep_view()) == leaves.deep_view()[0]);
            lemma_vec_u8_deep_view(&leaves[0]);
            assert(root@ == leaves.deep_view()[0]);
            assert(root@.len() == 32);
        }
        Ok(BlockchainHash::new(root))
    }

    /// Recomputes the Merkle root and compares it with the committed one.
    pub fn verify_merkle_root(&self) -> (r: Result<(), BlockchainError>)
        ensures
            r is Ok <==> (self@.transactions.len() > 0 && self@.merkle_root
                == spec_block_merkle_root(self@)),
            r matches Err(e) ==> e is InvalidBlock,
    {
        let calculated = match Self::calculate_merkle_root(&self.transactions) {
            Ok(h) => h,
            Err(_) => {
                return Err(
                    BlockchainError::InvalidBlock("Merkle root calculation failed".to_string()),
                );
            },
        };
        if !(calculated == self.merkle_root) {
            return Err(BlockchainError::InvalidBlock("Merkle root mismatch".to_string()));
        }
        Ok(())
    }

    /// The timestamp rule against an explicit clock reading: a block may
    /// not lie more than the tolerance in the future.
    pub fn verify_timestamp_plausibility_at(&self, now: u128) -> (r: Result<(), BlockchainError>)
        ensures
            r is Ok <==> spec_timestamp_plausible(self@.timestamp, now),
            r matches Err(e) ==> e is InvalidBlock,
    {
        if self.timestamp > TIMESTAMP_FUTURITY_TOLERANCE_MILLIS && self.timestamp
            - TIMESTAMP_FUTURITY_TOLERANCE_MILLIS > now {
            return Err(
                BlockchainError::InvalidBlock(
                    "Block timestamp is too far in the future".to_string(),
                ),
            );
        }
        Ok(())
    }

    /// The timestamp rule against the validator's own clock. Each call
    /// reads the clock once and applies the rule to that reading.
    pub fn verify_timestamp_plausibility(&self) -> (r: Result<(), BlockchainError>)
        ensures
            r matches Err(e) ==> e is InvalidBlock,
            exists|now: u128| r is Ok <==> spec_timestamp_plausible(self@.timestamp, now),
    {
        let now = now_millis();
        let r = self.verify_timestamp_plausibility_at(now);
        proof {
            assert(r is Ok <==> spec_timestamp_plausible(self@.timestamp, now));
        }
        r
    }

    /// Recomputes the header hash and checks it against the difficulty
    /// target and against the stored hash.
    pub fn validate_proof_of_work(&self) -> (r: Result<(), BlockchainError>)
        ensures
            r is Ok <==> spec_pow_ok(self@),
            r matches Err(e) ==> e is InvalidProofOfWork || e is InvalidBlock,
            r matches Err(e) ==> (e is InvalidProofOfWork ==> (spec_header_hash(self@)
                == spec_zero_hash() || !spec_lex_le(spec_header_hash(self@), spec_target(self@.bits)))),
            r matches Err(e) ==> (e is InvalidBlock ==> self@.hash != spec_header_hash(self@)),
    {
        let calculated = self.calculate_hash();
        let target = match Self::get_difficulty_target_from_bits(self.bits) {
            Ok(t) => t,
            Err(e) => {
                return Err(e);
            },
        };
        if calculated.is_zero_hash() || !calculated.le(&target) {
            return Err(
                BlockchainError::InvalidProofOfWork(
                    "Block hash does not meet difficulty target".to_string(),
                ),
            );
        }
        if !(calculated == self.hash) {
            return Err(
                BlockchainError::InvalidBlock(
                    "Calculated block hash does not match stored hash".to_string(),
                ),
            );
        }
        Ok(())
    }
}

/// The UTXO entries a transaction creates: one per output, keyed by
/// `(tx.id, index)`.
pub open spec fn spec_tx_additions(t: TransactionV) -> Seq<((Seq<u8>, u32), TxOutV)> {
    Seq::new(t.outputs.len(), |i: int| ((t.id, i as u32), t.outputs[i]))
}

/// The outpoints a transaction consumes: one per input, unless it is
/// coinbase-shaped and consumes nothing.
pub open spec fn spec_tx_removals(t: TransactionV) -> Seq<(Seq<u8>, u32)> {
    if spec_is_coinbase(t) {
        Seq::empty()
    } else {
        Seq::new(t.inputs.len(), |i: int| (t.inputs[i].prev_tx_id, t.inputs[i].prev_out_idx))
    }
}

pub open spec fn spec_concat_additions(ts: Seq<TransactionV>) -> Seq<((Seq<u8>, u32), TxOutV)>
    decreases ts.len(),
{
    if ts.len() == 0 {
        Seq::empty()
    } else {
        spec_tx_additions(ts[0]) + spec_concat_additions(ts.skip(1))
    }
}

pub open spec fn spec_concat_removals(ts: Seq<TransactionV>) -> Seq<(Seq<u8>, u32)>
    decreases ts.len(),
{
    if ts.len() == 0 {
        Seq::empty()
    } else {
        spec_tx_removals(ts[0]) + spec_concat_removals(ts.skip(1))
    }
}

/// All UTXO entries a block creates, in transaction order.
pub open spec fn spec_block_additions(b: BlockV) -> Seq<((Seq<u8>, u32), TxOutV)> {
    spec_concat_additions(b.transactions)
}

/// All outpoints a block consumes, in transaction order.
pub open spec fn spec_block_removals(b: BlockV) -> Seq<(Seq<u8>, u32)> {
    spec_concat_removals(b.transactions)
}

proof fn lemma_concat_additions_push(s: Seq<TransactionV>, i: int)
    requires
        0 <= i < s.len(),
    ensures
        spec_concat_additions(s.take(i + 1)) == spec_concat_additions(s.take(i))
            + spec_tx_additions(s[i]),
    decreases i,
{
    if i == 0 {
        assert(s.take(1) =~= seq![s[0]]);
        assert(s.take(1)[0] == s[0]);
        assert(s.take(1).skip(1) =~= Seq::<TransactionV>::empty());
        assert(s.take(0) =~= Seq::<TransactionV>::empty());
        assert(spec_concat_additions(Seq::<TransactionV>::empty()) =~= Seq::<(
            (Seq<u8>, u32),
            TxOutV,
        )>::empty());
        assert(spec_concat_additions(s.take(1)) =~= spec_tx_additions(s[0]));
        assert(spec_concat_additions(s.take(0)) + spec_tx_additions(s[0]) =~= spec_tx_additions(
            s[0],
        ));
    } else {
        lemma_concat_additions_push(s.skip(1), i - 1);
        assert(s.take(i + 1).skip(1) =~= s.skip(1).take(i));
        assert(s.take(i).skip(1) =~= s.skip(1).take(i - 1));
        assert(s.take(i + 1)[0] == s[0]);
        assert(s.take(i)[0] == s[0]);
        assert(s.skip(1)[i - 1] == s[i]);
        assert(spec_concat_additions(s.take(i + 1)) == spec_tx_additions(s[0])
            + spec_concat_additions(s.skip(1).take(i)));
        assert(spec_tx_additions(s[0]) + (spec_concat_additions(s.skip(1).take(i - 1))
            + spec_tx_additions(s[i])) =~= (spec_tx_additions(s[0]) + spec_concat_additions(
            s.skip(1).take(i - 1),
        )) + spec_tx_additions(s[i]));
    }
}

proof fn lemma_concat_removals_push(s: Seq<TransactionV>, i: int)
    requires
        0 <= i < s.len(),
    ensures
        spec_concat_removals(s.take(i + 1)) == spec_concat_removals(s.take(i)) + spec_tx_removals(
            s[i],
        ),
    decreases i,
{
    if i == 0 {
        assert(s.take(1) =~= seq![s[0]]);
        assert(s.take(1)[0] == s[0]);
        assert(s.take(1).skip(1) =~= Seq::<TransactionV>::empty());
        assert(s.take(0) =~= Seq::<TransactionV>::empty());
        assert(spec_concat_removals(Seq::<TransactionV>::empty()) =~= Seq::<(
            Seq<u8>,
            u32,
        )>::empty());
        assert(spec_concat_removals(s.take(1)) =~= spec_tx_removals(s[0]));
        assert(spec_concat_removals(s.take(0)) + spec_tx_removals(s[0]) =~= spec_tx_removals(
            s[0],
        ));
    } else {
        lemma_concat_removals_push(s.skip(1), i - 1);
        assert(s.take(i + 1).skip(1) =~= s.skip(1).take(i));
        assert(s.take(i).skip(1) =~= s.skip(1).take(i - 1));
        assert(s.take(i + 1)[0] == s[0]);
        assert(s.take(i)[0] == s[0]);
        assert(s.skip(1)[i - 1] == s[i]);
        assert(spec_concat_removals(s.take(i + 1)) == spec_tx_removals(s[0])
            + spec_concat_removals(s.skip(1).take(i)));
        assert(spec_tx_removals(s[0]) + (spec_concat_removals(s.skip(1).take(i - 1))
            + spec_tx_removals(s[i])) =~= (spec_tx_removals(s[0]) + spec_concat_removals(
            s.skip(1).take(i - 1),
        )) + spec_tx_removals(s[i]));
    }
}

/// A block as freshly assembled from its parts, before and after the
/// header hash is known: the Merkle root and hash are the computed ones.
pub open spec fn spec_assembled_block(
    height: u64,
    timestamp: u128,
    transactions: Seq<TransactionV>,
    prev_block_hash: Seq<u8>,
    bits: u32,
    nonce: u64,
) -> BlockV {
    let b0 = BlockV {
        height,
        timestamp,
        transactions,
        prev_block_hash,
        merkle_root: spec_merkle_root(spec_leaves(transactions)),
        bits,
        nonce,
        hash: spec_zero_hash(),
    };
    BlockV { hash: spec_header_hash(b0), ..b0 }
}

/// The deterministic genesis block: one coinbase paying the genesis
/// address, the fixed timestamp, nonce 0, zero previous hash. Its hash is
/// not required to meet difficulty.
pub open spec fn spec_genesis_block() -> BlockV {
    spec_assembled_block(
        0,
        GENESIS_TIMESTAMP,
        seq![spec_coinbase_tx(spec_genesis_addr(), GENESIS_BLOCK_REWARD as u64)],
        spec_zero_hash(),
        DEFAULT_BITS,
        0,
    )
}

impl Block {
    /// The deterministic genesis block.
    pub fn genesis() -> (r: Block)
        ensures
            r@ == spec_genesis_block(),
    {
        let coinbase_transaction = Transaction::genesis_transaction();
        let mut transactions: Vec<Transaction> = Vec::new();
        transactions.push(coinbase_transaction);
        proof {
            assert(transactions.deep_view() =~= seq![
                spec_coinbase_tx(spec_genesis_addr(), GENESIS_BLOCK_REWARD as u64),
            ]);
        }
        let merkle_root = match Self::calculate_merkle_root(&transactions) {
            Ok(h) => h,
            Err(_) => {
                proof {
                    assert(false);
                }
                BlockchainHash::default()
            },
        };
        let mut block = Block {
            height: 0,
            timestamp: GENESIS_TIMESTAMP,
            transactions,
            merkle_root,
            prev_block_hash: BlockchainHash::default(),
            hash: BlockchainHash::default(),
            nonce: 0,
            bits: DEFAULT_BITS,
        };
        let hash = block.calculate_hash();
        block.hash = hash;
        proof {
            assert(block@ =~= spec_genesis_block());
        }
        block
    }

    /// Assembles a block at the given height and mines it: the nonce is
    /// searched from 0 upward until the header hash meets the difficulty
    /// target for `bits`. Fails on an empty transaction list, and if every
    /// nonce is exhausted.
    pub fn mine(
        height: u64,
        transactions: Vec<Transaction>,
        prev_block_hash: BlockchainHash,
        bits: u32,
        timestamp: u128,
    ) -> (r: Result<Block, BlockchainError>)
        ensures
            r matches Ok(b) ==> {
                &&& b@ == spec_assembled_block(
                    height,
                    timestamp,
                    transactions.deep_view(),
                    prev_block_hash@,
                    bits,
                    b@.nonce,
                )
                &&& spec_pow_ok(b@)
            },
            r is Err <==> (transactions@.len() == 0 || spec_no_nonce_meets(
                height,
                timestamp,
                transactions.deep_view(),
                prev_block_hash@,
                bits,
            )),
    {
        let merkle_root = match Self::calculate_merkle_root(&transactions) {
            Ok(h) => h,
            Err(_) => {
                return Err(
                    BlockchainError::InvalidBlock(
                        "Block must contain at least one transaction".to_string(),
                    ),
                );
            },
        };
        let target = match Self::get_difficulty_target_from_bits(bits) {
            Ok(t) => t,
            Err(e) => {
                proof {
                    assert(false);
                }
                return Err(e);
            },
        };
        let mut nonce: u64 = 0;
        loop
            invariant
                transactions@.len() > 0,
                merkle_root@ == spec_merkle_root(spec_leaves(transactions.deep_view())),
                target@ == spec_target(bits),
                forall|n: u64|
                    n < nonce ==> !spec_pow_ok(
                        #[trigger] spec_assembled_block(
                            height,
                            timestamp,
                            transactions.deep_view(),
                            prev_block_hash@,
                            bits,
                            n,
                        ),
                    ),
            decreases u64::MAX - nonce,
        {
            let header = encode_header(
                height,
                timestamp,
                &prev_block_hash,
                &merkle_root,
                bits,
                nonce,
            );
            let hash = BlockchainHash::new(double_sha256(header.as_slice()));
            let ghost ab = spec_assembled_block(
                height,
                timestamp,
                transactions.deep_view(),
                prev_block_hash@,
                bits,
                nonce,
            );
            proof {
                assert(ab.hash == spec_header_hash(ab));
                assert(hash@ == spec_header_hash(ab));
            }
            if !hash.is_zero_hash() && hash.le(&target) {
                let block = Block {
                    height,
                    timestamp,
                    transactions,
                    merkle_root,
                    prev_block_hash,
                    hash,
                    nonce,
                    bits,
                };
                proof {
                    assert(block@ =~= ab);
                    assert(spec_pow_ok(ab));
                }
                return Ok(block);
            }
            proof {
                assert(!spec_pow_ok(ab));
            }
            if nonce == u64::MAX {
                proof {
                    assert forall|n: u64|
                        !spec_pow_ok(
                            #[trigger] spec_assembled_block(
                                height,
                                timestamp,
                                transactions.deep_view(),
                                prev_block_hash@,
                                bits,
                                n,
                            ),
                        ) by {
                        if n < u64::MAX {
                        } else {
                            assert(n == u64::MAX);
                        }
                    }
                }
                return Err(
                    BlockchainError::InvalidProofOfWork(
                        "Nonce space exhausted without meeting the target".to_string(),
                    ),
                );
            }
            nonce = nonce + 1;
        }
    }

    /// Assembles and mines a block stamped with the current time and the
    /// default difficulty.
    pub fn new(height: u64, transactions: Vec<Transaction>, prev_block_hash: BlockchainHash) -> (r:
        Result<Block, BlockchainError>)
        ensures
            r matches Ok(b) ==> {
                &&& b@ == spec_assembled_block(
                    height,
                    b@.timestamp,
                    transactions.deep_view(),
                    prev_block_hash@,
                    DEFAULT_BITS,
                    b@.nonce,
                )
                &&& spec_pow_ok(b@)
                &&& transactions@.len() > 0
            },
            r is Err ==> (transactions@.len() == 0 || exists|ts: u128|
                spec_no_nonce_meets(
                    height,
                    ts,
                    transactions.deep_view(),
                    prev_block_hash@,
                    DEFAULT_BITS,
                )),
    {
        let timestamp = now_millis();
        Self::mine(height, transactions, prev_block_hash, DEFAULT_BITS, timestamp)
    }

    /// The UTXO delta of this block: the entries every transaction's
    /// outputs create, and the outpoints every non-coinbase transaction's
    /// inputs consume.
    pub fn get_utxos(&self) -> (r: (
        Vec<((BlockchainHash, u32), TxOut)>,
        Vec<(BlockchainHash, u32)>,
    ))
        ensures
            r.0.deep_view() == spec_block_additions(self@),
            r.1.deep_view() == spec_block_removals(self@),
    {
        let mut additions: Vec<((BlockchainHash, u32), TxOut)> = Vec::new();
        let mut removals: Vec<(BlockchainHash, u32)> = Vec::new();
        let ghost ts = self.transactions.deep_view();
        let mut i: usize = 0;
        while i < self.transactions.len()
            invariant
                i <= self.transactions.len(),
                ts == self.transactions.deep_view(),
                additions.deep_view() =~= spec_concat_additions(ts.take(i as int)),
                removals.deep_view() =~= spec_concat_removals(ts.take(i as int)),
            decreases self.transactions.len() - i,
        {
            proof {
                lemma_concat_additions_push(ts, i as int);
                lemma_concat_removals_push(ts, i as int);
            }
            let tx = &self.transactions[i];
            let ghost add_base = additions.deep_view();
            let mut j: usize = 0;
            while j < tx.outputs.len()
                invariant
                    j <= tx.outputs.len(),
                    tx@ == ts[i as int],
                    0 <= i < ts.len(),
                    additions.deep_view() =~= add_base + spec_tx_additions(ts[i as int]).take(
                        j as int,
                    ),
                decreases tx.outputs.len() - j,
            {
                proof {
                    assert(additions.deep_view().len() == additions@.len());
                    assert(spec_tx_additions(ts[i as int]).take(j as int).len() == j as int);
                }
                let entry = ((tx.id.clone(), #[verifier::truncate] (j as u32)), tx.outputs[j].clone());
                let ghost prev_dv = additions.deep_view();
                additions.push(entry);
                proof {
                    assert(forall|m: int|
                        0 <= m < prev_dv.len() ==> additions.deep_view()[m] == #[trigger] prev_dv[
                            m
                        ]);
                    assert(additions.deep_view()[prev_dv.len() as int] == entry.deep_view());
                    assert(entry.deep_view() == spec_tx_additions(ts[i as int])[j as int]);
                    assert(spec_tx_additions(ts[i as int]).take(j + 1) =~= spec_tx_additions(
                        ts[i as int],
                    ).take(j as int).push(spec_tx_additions(ts[i as int])[j as int]));
                    assert(additions.deep_view().len() == prev_dv.len() + 1);
                    assert(prev_dv == add_base + spec_tx_additions(ts[i as int]).take(j as int));
                    assert forall|m: int| 0 <= m < additions.deep_view().len() implies additions.deep_view()[m]
                        == (add_base + spec_tx_additions(ts[i as int]).take(j + 1))[m] by {
                        if m < prev_dv.len() {
                            assert(additions.deep_view()[m] == prev_dv[m]);
                            assert((add_base + spec_tx_additions(ts[i as int]).take(j + 1))[m]
                                == prev_dv[m]);
                        } else {
                            assert(additions.deep_view()[m] == entry.deep_view());
                            assert((add_base + spec_tx_additions(ts[i as int]).take(j + 1))[m]
                                == spec_tx_additions(ts[i as int])[j as int]);
                        }
                    }
                    assert(additions.deep_view() =~= add_base + spec_tx_additions(
                        ts[i as int],
                    ).take(j + 1));
                }
                j = j + 1;
            }
            proof {
                assert(spec_tx_additions(ts[i as int]).take(ts[i as int].outputs.len() as int)
                    =~= spec_tx_additions(ts[i as int]));
            }
            if !tx.is_coinbase() {
                let ghost rem_base = removals.deep_view();
                let mut k: usize = 0;
                while k < tx.inputs.len()
                    invariant
                        k <= tx.inputs.len(),
                        tx@ == ts[i as int],
                        0 <= i < ts.len(),
                        !spec_is_coinbase(ts[i as int]),
                        removals.deep_view() =~= rem_base + spec_tx_removals(ts[i as int]).take(
                            k as int,
                        ),
                    decreases tx.inputs.len() - k,
                {
                    proof {
                        assert(removals.deep_view().len() == removals@.len());
                        assert(spec_tx_removals(ts[i as int]).take(k as int).len() == k as int);
                    }
                    let input = &tx.inputs[k];
                    let rem_entry = (input.prev_tx_id.clone(), input.prev_out_idx);
                    let ghost prev_rv = removals.deep_view();
                    removals.push(rem_entry);
                    proof {
                        assert(forall|m: int|
                            0 <= m < prev_rv.len() ==> removals.deep_view()[m]
                                == #[trigger] prev_rv[m]);
                        assert(removals.deep_view()[prev_rv.len() as int] == rem_entry.deep_view());
                        assert(rem_entry.deep_view() == spec_tx_removals(ts[i as int])[k as int]);
                        assert(spec_tx_removals(ts[i as int]).take(k + 1) =~= spec_tx_removals(
                            ts[i as int],
                        ).take(k as int).push(spec_tx_removals(ts[i as int])[k as int]));
                        assert(removals.deep_view().len() == prev_rv.len() + 1);
                        assert(prev_rv == rem_base + spec_tx_removals(ts[i as int]).take(
                            k as int,
                        ));
                        assert forall|m: int| 0 <= m < removals.deep_view().len() implies removals.deep_view()[
                            m
                        ] == (rem_base + spec_tx_removals(ts[i as int]).take(k + 1))[m] by {
                            if m < prev_rv.len() {
                                assert(removals.deep_view()[m] == prev_rv[m]);
                                assert((rem_base + spec_tx_removals(ts[i as int]).take(k + 1))[m]
                                    == prev_rv[m]);
                            } else {
                                assert(removals.deep_view()[m] == rem_entry.deep_view());
                                assert((rem_base + spec_tx_removals(ts[i as int]).take(k + 1))[m]
                                    == spec_tx_removals(ts[i as int])[k as int]);
                            }
                        }
                        assert(removals.deep_view() =~= rem_base + spec_tx_removals(
                            ts[i as int],
                        ).take(k + 1));
                    }
                    k = k + 1;
                }
                proof {
                    assert(spec_tx_removals(ts[i as int]).take(ts[i as int].inputs.len() as int)
                        =~= spec_tx_removals(ts[i as int]));
                }
            } else {
                proof {
                    assert(spec_tx_removals(ts[i as int]) =~= Seq::<(Seq<u8>, u32)>::empty());
                    assert(removals.deep_view() =~= spec_concat_removals(ts.take(i as int))
                        + spec_tx_removals(ts[i as int]));
                }
            }
            i = i + 1;
        }
        proof {
            assert(ts.take(ts.len() as int) =~= ts);
        }
        (additions, removals)
    }
}

/// A transaction on the wire or on disk: its id, then its identifying
/// payload.
pub open spec fn spec_encode_tx_wire(t: TransactionV) -> Seq<u8> {
    t.id + codec::spec_encode_tx_parts(t.inputs, t.outputs, t.timestamp)
}

pub open spec fn spec_concat_txs_wire(ts: Seq<TransactionV>) -> Seq<u8>
    decreases ts.len(),
{
    if ts.len() == 0 {
        Seq::empty()
    } else {
        spec_encode_tx_wire(ts[0]) + spec_concat_txs_wire(ts.skip(1))
    }
}

/// A whole block serialized for storage: the header fields, then the
/// transaction list under a count prefix.
pub open spec fn spec_encode_block(b: BlockV) -> Seq<u8> {
    spec_encode_header(b.height, b.timestamp, b.prev_block_hash, b.merkle_root, b.bits, b.nonce)
        + b.hash + spec_u64_to_le_bytes(b.transactions.len() as u64) + spec_concat_txs_wire(
        b.transactions,
    )
}

proof fn lemma_concat_txs_wire_push(s: Seq<TransactionV>, i: int)
    requires
        0 <= i < s.len(),
    ensures
        spec_concat_txs_wire(s.take(i + 1)) == spec_concat_txs_wire(s.take(i))
            + spec_encode_tx_wire(s[i]),
    decreases i,
{
    if i == 0 {
        assert(s.take(1) =~= seq![s[0]]);
        assert(s.take(1)[0] == s[0]);
        assert(s.take(1).skip(1) =~= Seq::<TransactionV>::empty());
        assert(s.take(0) =~= Seq::<TransactionV>::empty());
        assert(spec_concat_txs_wire(Seq::<TransactionV>::empty()) =~= Seq::<u8>::empty());
        assert(spec_concat_txs_wire(s.take(1)) =~= spec_encode_tx_wire(s[0]));
        assert(spec_concat_txs_wire(s.take(0)) + spec_encode_tx_wire(s[0])
            =~= spec_encode_tx_wire(s[0]));
    } else {
        lemma_concat_txs_wire_push(s.skip(1), i - 1);
        assert(s.take(i + 1).skip(1) =~= s.skip(1).take(i));
        assert(s.take(i).skip(1) =~= s.skip(1).take(i - 1));
        assert(s.take(i + 1)[0] == s[0]);
        assert(s.take(i)[0] == s[0]);
        assert(s.skip(1)[i - 1] == s[i]);
        assert(spec_concat_txs_wire(s.take(i + 1)) == spec_encode_tx_wire(s[0])
            + spec_concat_txs_wire(s.skip(1).take(i)));
        assert(spec_encode_tx_wire(s[0]) + (spec_concat_txs_wire(s.skip(1).take(i - 1))
            + spec_encode_tx_wire(s[i])) =~= (spec_encode_tx_wire(s[0]) + spec_concat_txs_wire(
            s.skip(1).take(i - 1),
        )) + spec_encode_tx_wire(s[i]));
    }
}

impl Block {
    /// The canonical bytes of this block, as persisted by a durable
    /// store: header fields, stored hash, then every transaction.
    pub fn encode_block(&self) -> (r: Vec<u8>)
        ensures
            r@ == spec_encode_block(self@),
    {
        let mut out = encode_header(
            self.height,
            self.timestamp,
            &self.prev_block_hash,
            &self.merkle_root,
            self.bits,
            self.nonce,
        );
        let mut hash_bytes = vstd::slice::slice_to_vec(self.hash.as_ref());
        out.append(&mut hash_bytes);
        let mut count = u64_to_le_bytes(self.transactions.len() as u64);
        out.append(&mut count);
        let ghost base = out@;
        let ghost ts = self.transactions.deep_view();
        let mut i: usize = 0;
        while i < self.transactions.len()
            invariant
                i <= self.transactions@.len(),
                ts == self.transactions.deep_view(),
                out@ == base + spec_concat_txs_wire(ts.take(i as int)),
            decreases self.transactions@.len() - i,
        {
            proof {
                lemma_concat_txs_wire_push(ts, i as int);
            }
            let tx = &self.transactions[i];
            let mut id_bytes = vstd::slice::slice_to_vec(tx.id.as_ref());
            out.append(&mut id_bytes);
            let mut body = codec::encode_tx_parts(&tx.inputs, &tx.outputs, tx.timestamp);
            out.append(&mut body);
            proof {
                assert(tx@ == ts[i as int]);
                assert(out@ =~= base + spec_concat_txs_wire(ts.take(i + 1)));
            }
            i = i + 1;
        }
        proof {
            assert(ts.take(ts.len() as int) =~= ts);
            assert(out@ =~= spec_encode_block(self@));
        }
        out
    }
}

proof fn lemma_concat_txs_wire_push_back(s: Seq<TransactionV>)
    requires
        s.len() > 0,
    ensures
        spec_concat_txs_wire(s) == spec_concat_txs_wire(s.drop_last()) + spec_encode_tx_wire(
            s.last(),
        ),
{
    lemma_concat_txs_wire_push(s, s.len() - 1);
    assert(s.take(s.len() as int) =~= s);
    assert(s.take(s.len() - 1) =~= s.drop_last());
}

impl Block {
    /// Parses a stored block back from its canonical bytes. Whatever it
    /// yields re-encodes to exactly the consumed prefix, so a parse can
    /// never invent a block the encoding would not produce. Trailing
    /// bytes are tolerated.
    pub fn decode_block(bytes: &[u8]) -> (r: Option<Block>)
        ensures
            r matches Some(b) ==> exists|n: int|
                0 <= n <= bytes@.len() && spec_encode_block(b@) == bytes@.take(n),
    {
        let (height, pos1) = match codec::read_u64(bytes, 0) {
            Some(p) => p,
            None => {
                return None;
            },
        };
        let (timestamp, pos2) = match codec::read_u128(bytes, pos1) {
            Some(p) => p,
            None => {
                return None;
            },
        };
        let (prev_block_hash, pos3) = match codec::read_hash(bytes, pos2) {
            Some(p) => p,
            None => {
                return None;
            },
        };
        let (merkle_root, pos4) = match codec::read_hash(bytes, pos3) {
            Some(p) => p,
            None => {
                return None;
            },
        };
        let (bits, pos5) = match codec::read_u32(bytes, pos4) {
            Some(p) => p,
            None => {
                return None;
            },
        };
        let (nonce, pos6) = match codec::read_u64(bytes, pos5) {
            Some(p) => p,
            None => {
                return None;
            },
        };
        let (hash, pos7) = match codec::read_hash(bytes, pos6) {
            Some(p) => p,
            None => {
                return None;
            },
        };
        let (count, pos8) = match codec::read_count(bytes, pos7) {
            Some(p) => p,
            None => {
                return None;
            },
        };
        let mut transactions: Vec<Transaction> = Vec::new();
        let mut cur: usize = pos8;
        let mut i: usize = 0;
        while i < count
            invariant
                i <= count,
                pos8 <= cur <= bytes@.len(),
                transactions@.len() == i,
                spec_concat_txs_wire(transactions.deep_view()) =~= bytes@.subrange(
                    pos8 as int,
                    cur as int,
                ),
            decreases count - i,
        {
            let (tx, next) = match codec::decode_transaction(bytes, cur) {
                Some(p) => p,
                None => {
                    return None;
                },
            };
            let ghost pre = transactions.deep_view();
            transactions.push(tx);
            proof {
                assert(forall|m: int|
                    0 <= m < pre.len() ==> #[trigger] transactions.deep_view()[m] == pre[m]);
                assert(transactions.deep_view()[pre.len() as int] == tx@);
                assert(transactions.deep_view().drop_last() =~= pre);
                lemma_concat_txs_wire_push_back(transactions.deep_view());
                assert(spec_encode_tx_wire(tx@) == bytes@.subrange(cur as int, next as int));
                assert(spec_concat_txs_wire(transactions.deep_view()) =~= bytes@.subrange(
                    pos8 as int,
                    next as int,
                ));
            }
            cur = next;
            i = i + 1;
        }
        let block = Block {
            height,
            timestamp,
            transactions,
            prev_block_hash,
            merkle_root,
            bits,
            nonce,
            hash,
        };
        proof {
            assert(spec_u64_to_le_bytes(count as u64) == bytes@.subrange(
                pos7 as int,
                pos7 + 8,
            ));
            assert(block.transactions.deep_view().len() == count);
            assert(spec_encode_block(block@) =~= bytes@.take(cur as int));
        }
        Some(block)
    }
}

} // verus!
