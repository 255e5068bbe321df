//! Transactions: unsigned drafts, signed transactions, their identifiers
//! and signature checks.

use vstd::prelude::*;
use vstd::string::StringSliceAdditionalSpecFns;

use crate::clock::now_millis;
use crate::codec;
use crate::crypto::{ecdsa_verifies, spec_double_sha256};
use crate::keys::keypair::{ecdsa_sign_of, ecdsa_sign_some, KeyPair};
use crate::keys::blockchain_hash::spec_zero_hash;
use crate::keys::signature::{spec_pubkey_part, spec_script_sig_ok, spec_sig_part};
use crate::keys::{BlockchainHash, PublicKeyHash, Signature, SignatureError};
use crate::scripts::{Script, ScriptV};

verus! {

/// The address of the genesis coinbase output.
pub open spec fn spec_genesis_addr() -> Seq<u8> {
    seq![
        0x8du8, 0xd4u8, 0x5du8, 0xc1u8, 0xa3u8, 0x55u8, 0xc0u8, 0x66u8, 0xd8u8, 0x9eu8,
        0x55u8, 0x1du8, 0xb6u8, 0xcdu8, 0x94u8, 0x69u8, 0x51u8, 0x3eu8, 0xb4u8, 0xddu8,
    ]
}

/// The fixed reward of the genesis coinbase.
pub const GENESIS_BLOCK_REWARD: u64 = 120;

/// A reference to an unspent output together with its value, as reported to
/// wallets building new transactions.
#[derive(Debug)]
pub struct UTXO {
    pub prev_tx_id: BlockchainHash,
    pub prev_out_idx: u32,
    pub value: u64,
}

/// The view of a [`UTXO`].
#[verifier::ext_equal]
pub ghost struct UTXOV {
    pub prev_tx_id: Seq<u8>,
    pub prev_out_idx: u32,
    pub value: u64,
}

impl View for UTXO {
    type V = UTXOV;

    open spec fn view(&self) -> UTXOV {
        UTXOV { prev_tx_id: self.prev_tx_id@, prev_out_idx: self.prev_out_idx, value: self.value }
    }
}

impl DeepView for UTXO {
    type V = UTXOV;

    open spec fn deep_view(&self) -> UTXOV {
        self.view()
    }
}

impl Clone for UTXO {
    fn clone(&self) -> (r: Self)
        ensures
            r@ == self@,
    {
        UTXO {
            prev_tx_id: self.prev_tx_id.clone(),
            prev_out_idx: self.prev_out_idx,
            value: self.value,
        }
    }
}

/// A transaction output: a value locked by a script.
#[derive(Debug)]
pub struct TxOut {
    pub value: u64,
    pub script_pubkey: Script,
}

/// The view of a [`TxOut`].
#[verifier::ext_equal]
pub ghost struct TxOutV {
    pub value: u64,
    pub script_pubkey: ScriptV,
}

impl View for TxOut {
    type V = TxOutV;

    open spec fn view(&self) -> TxOutV {
        TxOutV { value: self.value, script_pubkey: self.script_pubkey@ }
    }
}

impl DeepView for TxOut {
    type V = TxOutV;

    open spec fn deep_view(&self) -> TxOutV {
        self.view()
    }
}

impl Clone for TxOut {
    fn clone(&self) -> (r: Self)
        ensures
            r@ == self@,
    {
        TxOut { value: self.value, script_pubkey: self.script_pubkey.clone() }
    }
}

/// A signed transaction input: an outpoint plus its unlocking script-sig.
#[derive(Debug)]
pub struct TxIn {
    pub prev_tx_id: BlockchainHash,
    pub prev_out_idx: u32,
    pub script_sig: Signature,
    pub sequence: u32,
}

/// The view of a [`TxIn`].
#[verifier::ext_equal]
pub ghost struct TxInV {
    pub prev_tx_id: Seq<u8>,
    pub prev_out_idx: u32,
    pub script_sig: Seq<u8>,
    pub sequence: u32,
}

impl View for TxIn {
    type V = TxInV;

    open spec fn view(&self) -> TxInV {
        TxInV {
            prev_tx_id: self.prev_tx_id@,
            prev_out_idx: self.prev_out_idx,
            script_sig: self.script_sig@,
            sequence: self.sequence,
        }
    }
}

impl DeepView for TxIn {
    type V = TxInV;

    open spec fn deep_view(&self) -> TxInV {
        self.view()
    }
}

impl Clone for TxIn {
    fn clone(&self) -> (r: Self)
        ensures
            r@ == self@,
    {
        TxIn {
            prev_tx_id: self.prev_tx_id.clone(),
            prev_out_idx: self.prev_out_idx,
            script_sig: self.script_sig.clone(),
            sequence: self.sequence,
        }
    }
}

/// An input of a draft transaction, before a script-sig exists.
#[derive(Debug)]
pub struct UnsignedTxIn {
    pub prev_tx_id: BlockchainHash,
    pub prev_out_idx: u32,
    pub sequence: u32,
}

/// The view of an [`UnsignedTxIn`].
#[verifier::ext_equal]
pub ghost struct UnsignedTxInV {
    pub prev_tx_id: Seq<u8>,
    pub prev_out_idx: u32,
    pub sequence: u32,
}

impl View for UnsignedTxIn {
    type V = UnsignedTxInV;

    open spec fn view(&self) -> UnsignedTxInV {
        UnsignedTxInV {
            prev_tx_id: self.prev_tx_id@,
            prev_out_idx: self.prev_out_idx,
            sequence: self.sequence,
        }
    }
}

impl DeepView for UnsignedTxIn {
    type V = UnsignedTxInV;

    open spec fn deep_view(&self) -> UnsignedTxInV {
        self.view()
    }
}

impl Clone for UnsignedTxIn {
    fn clone(&self) -> (r: Self)
        ensures
            r@ == self@,
    {
        UnsignedTxIn {
            prev_tx_id: self.prev_tx_id.clone(),
            prev_out_idx: self.prev_out_idx,
            sequence: self.sequence,
        }
    }
}

/// An unsigned transaction: inputs to spend, outputs to create, and the
/// timestamp under which the signing digest is computed.
#[derive(Debug)]
pub struct DraftTransaction {
    pub inputs: Vec<UnsignedTxIn>,
    pub outputs: Vec<TxOut>,
    pub timestamp: u128,
}

/// The view of a [`DraftTransaction`].
#[verifier::ext_equal]
pub ghost struct DraftTransactionV {
    pub inputs: Seq<UnsignedTxInV>,
    pub outputs: Seq<TxOutV>,
    pub timestamp: u128,
}

impl View for DraftTransaction {
    type V = DraftTransactionV;

    open spec fn view(&self) -> DraftTransactionV {
        DraftTransactionV {
            inputs: self.inputs.deep_view(),
            outputs: self.outputs.deep_view(),
            timestamp: self.timestamp,
        }
    }
}

/// A signed transaction. Its id is the double-SHA-256 of its canonical
/// encoding, signatures included.
#[derive(Debug)]
pub struct Transaction {
    pub id: BlockchainHash,
    pub inputs: Vec<TxIn>,
    pub outputs: Vec<TxOut>,
    pub timestamp: u128,
}

/// The view of a [`Transaction`].
#[verifier::ext_equal]
pub ghost struct TransactionV {
    pub id: Seq<u8>,
    pub inputs: Seq<TxInV>,
    pub outputs: Seq<TxOutV>,
    pub timestamp: u128,
}

impl View for Transaction {
    type V = TransactionV;

    open spec fn view(&self) -> TransactionV {
        TransactionV {
            id: self.id@,
            inputs: self.inputs.deep_view(),
            outputs: self.outputs.deep_view(),
            timestamp: self.timestamp,
        }
    }
}

impl DeepView for Transaction {
    type V = TransactionV;

    open spec fn deep_view(&self) -> TransactionV {
        self.view()
    }
}

impl Clone for Transaction {
    fn clone(&self) -> (r: Self)
        ensures
            r@ == self@,
    {
        let mut inputs: Vec<TxIn> = Vec::new();
        let mut i: usize = 0;
        while i < self.inputs.len()
            invariant
                i <= self.inputs.len(),
                inputs.deep_view() =~= self.inputs.deep_view().take(i as int),
            decreases self.inputs.len() - i,
        {
            let x = self.inputs[i].clone();
            proof {
                assert(self.inputs.deep_view().len() == self.inputs@.len());
                assert(inputs.deep_view().len() == inputs@.len());
                assert(self.inputs.deep_view().take(i as int).len() == i as int);
                assert(inputs@.len() == i as int);
            }
            inputs.push(x);
            proof {
                assert(inputs@.len() == i + 1);
                assert(inputs@[i as int] == x);
                assert(x.deep_view() == self.inputs@[i as int]@);
                assert(inputs.deep_view() =~= self.inputs.deep_view().take(i + 1));
            }
            i = i + 1;
        }
        let mut outputs: Vec<TxOut> = Vec::new();
        let mut j: usize = 0;
        while j < self.outputs.len()
            invariant
                j <= self.outputs.len(),
                outputs.deep_view() =~= self.outputs.deep_view().take(j as int),
            decreases self.outputs.len() - j,
        {
            let x = self.outputs[j].clone();
            proof {
                assert(self.outputs.deep_view().len() == self.outputs@.len());
                assert(outputs.deep_view().len() == outputs@.len());
                assert(self.outputs.deep_view().take(j as int).len() == j as int);
                assert(outputs@.len() == j as int);
            }
            outputs.push(x);
            proof {
                assert(outputs@.len() == j + 1);
                assert(outputs@[j as int] == x);
                assert(x.deep_view() == self.outputs@[j as int]@);
                assert(outputs.deep_view() =~= self.outputs.deep_view().take(j + 1));
            }
            j = j + 1;
        }
        let r = Transaction {
            id: self.id.clone(),
            inputs,
            outputs,
            timestamp: self.timestamp,
        };
        assert(r.inputs.deep_view() =~= self.inputs.deep_view());
        assert(r.outputs.deep_view() =~= self.outputs.deep_view());
        assert(r@ =~= self@);
        r
    }
}

/// The double-SHA-256 of a draft's signing payload: the digest every input
/// signs.
pub open spec fn spec_draft_id(d: DraftTransactionV) -> Seq<u8> {
    spec_double_sha256(codec::spec_encode_draft_parts(d.inputs, d.outputs, d.timestamp))
}

/// The signed inputs stripped back to their unsigned form.
pub open spec fn spec_unsigned_inputs(inputs: Seq<TxInV>) -> Seq<UnsignedTxInV> {
    Seq::new(
        inputs.len(),
        |i: int|
            UnsignedTxInV {
                prev_tx_id: inputs[i].prev_tx_id,
                prev_out_idx: inputs[i].prev_out_idx,
                sequence: inputs[i].sequence,
            },
    )
}

/// The signing digest recomputed from a signed transaction: the id of its
/// unsigned image. Independent of any signature bytes.
pub open spec fn spec_signing_id(t: TransactionV) -> Seq<u8> {
    spec_double_sha256(
        codec::spec_encode_draft_parts(spec_unsigned_inputs(t.inputs), t.outputs, t.timestamp),
    )
}

/// A transaction's id: the double-SHA-256 of its identifying payload,
/// signatures included, the id field itself excluded.
pub open spec fn spec_tx_id_parts(
    inputs: Seq<TxInV>,
    outputs: Seq<TxOutV>,
    timestamp: u128,
) -> Seq<u8> {
    spec_double_sha256(codec::spec_encode_tx_parts(inputs, outputs, timestamp))
}

pub open spec fn spec_tx_id(t: TransactionV) -> Seq<u8> {
    spec_tx_id_parts(t.inputs, t.outputs, t.timestamp)
}

/// A well-formed transaction carries the id its bytes hash to.
pub open spec fn spec_tx_wf(t: TransactionV) -> bool {
    t.id == spec_tx_id(t)
}

/// The coinbase null input: zero previous id, maximal output index.
pub open spec fn spec_coinbase_sentinel(i: TxInV) -> bool {
    i.prev_tx_id == spec_zero_hash() && i.prev_out_idx == 0xFFFFFFFFu32
}

/// A transaction is coinbase-shaped when it spends nothing: no inputs at
/// all, or exactly the sentinel input.
pub open spec fn spec_is_coinbase(t: TransactionV) -> bool {
    t.inputs.len() == 0 || (t.inputs.len() == 1 && spec_coinbase_sentinel(t.inputs[0]))
}

/// Every input's script-sig parses and its signature verifies the
/// transaction's signing digest under the carried public key.
pub open spec fn spec_sigs_valid(t: TransactionV) -> bool {
    forall|i: int|
        0 <= i < t.inputs.len() ==> {
            let ss = (#[trigger] t.inputs[i]).script_sig;
            spec_script_sig_ok(ss) && ecdsa_verifies(
                spec_pubkey_part(ss),
                spec_signing_id(t),
                spec_sig_part(ss),
            )
        }
}

/// The inputs of a draft signed under one key: each carries the same
/// deterministic signature over the draft's digest, then the public key.
pub open spec fn spec_signed_inputs(
    inputs: Seq<UnsignedTxInV>,
    key: Seq<u8>,
    digest: Seq<u8>,
) -> Seq<TxInV> {
    Seq::new(
        inputs.len(),
        |i: int|
            TxInV {
                prev_tx_id: inputs[i].prev_tx_id,
                prev_out_idx: inputs[i].prev_out_idx,
                script_sig: ecdsa_sign_of(key, digest) + key,
                sequence: inputs[i].sequence,
            },
    )
}

/// The transaction a draft becomes under a key, id included.
pub open spec fn spec_signed_tx(d: DraftTransactionV, key: Seq<u8>) -> TransactionV {
    let inputs = spec_signed_inputs(d.inputs, key, spec_draft_id(d));
    TransactionV {
        id: spec_tx_id_parts(inputs, d.outputs, d.timestamp),
        inputs,
        outputs: d.outputs,
        timestamp: d.timestamp,
    }
}

/// The script-sig bytes of every coinbase input this library mints.
pub open spec fn spec_coinbase_message() -> Seq<u8> {
    "My custom blockchain miner message! Block X".spec_bytes()
}

/// The coinbase transaction paying one reward to one address at
/// timestamp 0.
pub open spec fn spec_coinbase_tx(addr: Seq<u8>, reward: u64) -> TransactionV {
    let inputs = seq![
        TxInV {
            prev_tx_id: spec_zero_hash(),
            prev_out_idx: 0xFFFFFFFFu32,
            script_sig: spec_coinbase_message(),
            sequence: 0xFFFFFFFFu32,
        },
    ];
    let outputs = seq![
        TxOutV { value: reward, script_pubkey: ScriptV::PayToPublicKeyHash { pub_key_hash: addr } },
    ];
    TransactionV {
        id: spec_tx_id_parts(inputs, outputs, 0),
        inputs,
        outputs,
        timestamp: 0,
    }
}

impl DraftTransaction {
    /// Stamps the current time onto the given inputs and outputs. No
    /// cryptography happens here.
    pub fn new(inputs: Vec<UnsignedTxIn>, outputs: Vec<TxOut>) -> (r: Self)
        ensures
            r@.inputs == inputs.deep_view(),
            r@.outputs == outputs.deep_view(),
    {
        let timestamp = now_millis();
        DraftTransaction { inputs, outputs, timestamp }
    }

    /// The digest all of this draft's inputs sign.
    fn calculate_id(&self) -> (r: BlockchainHash)
        ensures
            r@ == spec_draft_id(self@),
    {
        let bytes = codec::encode_draft_parts(&self.inputs, &self.outputs, self.timestamp);
        let digest = crate::crypto::double_sha256(bytes.as_slice());
        BlockchainHash::new(digest)
    }

    /// Signs the draft under one key; signing succeeds exactly when the
    /// scheme signs the draft's digest under that key.
    pub fn sign(self, key: &KeyPair) -> (r: Result<Transaction, String>)
        ensures
            r is Ok <==> ecdsa_sign_some(key@, spec_draft_id(self@)),
            r matches Ok(tx) ==> {
                &&& tx@ == spec_signed_tx(self@, key@)
                &&& spec_tx_wf(tx@)
                &&& spec_sigs_valid(tx@)
            },
    {
        Transaction::new(self, key)
    }
}

impl Transaction {
    /// Signs every input of a draft with the same key and computes the
    /// final id over the signed bytes.
    fn new(draft: DraftTransaction, key: &KeyPair) -> (r: Result<Transaction, String>)
        ensures
            r is Ok <==> ecdsa_sign_some(key@, spec_draft_id(draft@)),
            r matches Ok(tx) ==> {
                &&& tx@ == spec_signed_tx(draft@, key@)
                &&& spec_tx_wf(tx@)
                &&& spec_sigs_valid(tx@)
            },
    {
        let key_public = key.public_key();
        proof {
            use_type_invariant(key_public);
        }
        let draft_hash = draft.calculate_id();
        let sig_bytes = match key.sign(draft_hash.as_ref()) {
            Ok(s) => s,
            Err(e) => {
                return Err(e);
            },
        };
        let ghost digest = spec_draft_id(draft@);
        let ghost draft_view = draft@;
        let DraftTransaction { inputs, outputs, timestamp } = draft;
        let mut signed_inputs: Vec<TxIn> = Vec::new();
        let mut i: usize = 0;
        while i < inputs.len()
            invariant
                i <= inputs.len(),
                inputs.deep_view() == draft_view.inputs,
                signed_inputs.deep_view() =~= spec_signed_inputs(
                    draft_view.inputs,
                    key@,
                    digest,
                ).take(i as int),
                sig_bytes@ == ecdsa_sign_of(key@, digest),
                sig_bytes@.len() == 64,
                key@.len() == 33,
                crate::crypto::ecdsa_sig_ok(sig_bytes@),
                ecdsa_verifies(key@, digest, sig_bytes@),
            decreases inputs.len() - i,
        {
            let sig_copy = {
                let c = sig_bytes.clone();
                assert(c@ =~= sig_bytes@);
                c
            };
            let script_sig = Signature::build(sig_copy, key.public_key());
            let input = &inputs[i];
            let signed = TxIn {
                prev_tx_id: input.prev_tx_id.clone(),
                prev_out_idx: input.prev_out_idx,
                script_sig,
                sequence: input.sequence,
            };
            proof {
                assert(signed_inputs.deep_view().len() == signed_inputs@.len());
                assert(signed_inputs@.len() == i as int);
            }
            signed_inputs.push(signed);
            proof {
                assert(signed_inputs@[i as int]@ == spec_signed_inputs(
                    draft_view.inputs,
                    key@,
                    digest,
                )[i as int]);
                assert(signed_inputs.deep_view() =~= spec_signed_inputs(
                    draft_view.inputs,
                    key@,
                    digest,
                ).take(i + 1));
            }
            i = i + 1;
        }
        proof {
            assert(spec_signed_inputs(draft_view.inputs, key@, digest).take(
                inputs.deep_view().len() as int,
            ) =~= spec_signed_inputs(draft_view.inputs, key@, digest));
        }
        let mut tx = Transaction {
            id: BlockchainHash::default(),
            inputs: signed_inputs,
            outputs,
            timestamp,
        };
        let id = tx.calculate_id();
        tx.id = id;
        proof {
            assert(tx@ =~= spec_signed_tx(draft_view, key@));
            lemma_signed_tx_sigs_valid(draft_view, key@, tx@);
        }
        Ok(tx)
    }

    /// The signing digest of this transaction: its id with every
    /// script-sig stripped. Independent of the signature bytes.
    pub fn calculate_signing_id(&self) -> (r: BlockchainHash)
        ensures
            r@ == spec_signing_id(self@),
    {
        let mut unsigned: Vec<UnsignedTxIn> = Vec::new();
        let mut i: usize = 0;
        while i < self.inputs.len()
            invariant
                i <= self.inputs.len(),
                unsigned.deep_view() =~= spec_unsigned_inputs(self.inputs.deep_view()).take(
                    i as int,
                ),
            decreases self.inputs.len() - i,
        {
            let input = &self.inputs[i];
            proof {
                assert(unsigned.deep_view().len() == unsigned@.len());
                assert(self.inputs.deep_view().len() == self.inputs@.len());
                assert(unsigned@.len() == i as int);
            }
            unsigned.push(
                UnsignedTxIn {
                    prev_tx_id: input.prev_tx_id.clone(),
                    prev_out_idx: input.prev_out_idx,
                    sequence: input.sequence,
                },
            );
            proof {
                assert(unsigned@[i as int]@ == spec_unsigned_inputs(self.inputs.deep_view())[
                    i as int
                ]);
                assert(unsigned.deep_view() =~= spec_unsigned_inputs(self.inputs.deep_view()).take(
                    i + 1,
                ));
            }
            i = i + 1;
        }
        proof {
            assert(spec_unsigned_inputs(self.inputs.deep_view()).take(
                self.inputs.deep_view().len() as int,
            ) =~= spec_unsigned_inputs(self.inputs.deep_view()));
        }
        let bytes = codec::encode_draft_parts(&unsigned, &self.outputs, self.timestamp);
        let digest = crate::crypto::double_sha256(bytes.as_slice());
        BlockchainHash::new(digest)
    }

    /// The id of this transaction, recomputed from its bytes.
    pub fn calculate_id(&self) -> (r: BlockchainHash)
        ensures
            r@ == spec_tx_id(self@),
    {
        let bytes = codec::encode_tx_parts(&self.inputs, &self.outputs, self.timestamp);
        let digest = crate::crypto::double_sha256(bytes.as_slice());
        BlockchainHash::new(digest)
    }

    /// The deterministic genesis coinbase.
    pub fn genesis_transaction() -> (r: Transaction)
        ensures
            r@ == spec_coinbase_tx(spec_genesis_addr(), GENESIS_BLOCK_REWARD as u64),
            spec_tx_wf(r@),
    {
        let addr_bytes: Vec<u8> = vec![
            0x8d, 0xd4, 0x5d, 0xc1, 0xa3, 0x55, 0xc0, 0x66, 0xd8, 0x9e, 0x55, 0x1d, 0xb6, 0xcd,
            0x94, 0x69, 0x51, 0x3e, 0xb4, 0xdd,
        ];
        assert(addr_bytes@ =~= spec_genesis_addr());
        let addr = PublicKeyHash::new(addr_bytes);
        Self::coinbase_transaction(&addr, GENESIS_BLOCK_REWARD)
    }

    /// Mints a coinbase transaction: one sentinel input, one output paying
    /// `reward` to `miner_addr`, timestamp 0 so the result is deterministic.
    pub fn coinbase_transaction(miner_addr: &PublicKeyHash, reward: u64) -> (r: Transaction)
        ensures
            r@ == spec_coinbase_tx(miner_addr@, reward),
            spec_tx_wf(r@),
            spec_is_coinbase(r@),
    {
        let message: &str = "My custom blockchain miner message! Block X";
        let script_sig = Signature::from_bytes(message.as_bytes());
        let input = TxIn {
            prev_tx_id: BlockchainHash::default(),
            prev_out_idx: 0xFFFFFFFF,
            script_sig,
            sequence: 0xFFFFFFFF,
        };
        let output = TxOut {
            value: reward,
            script_pubkey: Script::PayToPublicKeyHash { pub_key_hash: miner_addr.clone() },
        };
        let mut inputs: Vec<TxIn> = Vec::new();
        inputs.push(input);
        let mut outputs: Vec<TxOut> = Vec::new();
        outputs.push(output);
        let mut tx = Transaction {
            id: BlockchainHash::default(),
            inputs,
            outputs,
            timestamp: 0,
        };
        proof {
            assert(tx.inputs.deep_view() =~= spec_coinbase_tx(miner_addr@, reward).inputs);
            assert(tx.outputs.deep_view() =~= spec_coinbase_tx(miner_addr@, reward).outputs);
        }
        let id = tx.calculate_id();
        tx.id = id;
        proof {
            assert(tx@ =~= spec_coinbase_tx(miner_addr@, reward));
            assert(tx@.inputs[0].prev_tx_id == spec_zero_hash());
        }
        tx
    }

    /// Recomputes the signing digest and checks every input against it.
    pub fn verify_signatures(&self) -> (r: Result<(), SignatureError>)
        ensures
            r is Ok <==> spec_sigs_valid(self@),
    {
        let message = self.calculate_signing_id();
        let mut i: usize = 0;
        while i < self.inputs.len()
            invariant
                i <= self.inputs.len(),
                message@ == spec_signing_id(self@),
                forall|k: int|
                    0 <= k < i ==> {
                        let ss = (#[trigger] self@.inputs[k]).script_sig;
                        spec_script_sig_ok(ss) && ecdsa_verifies(
                            spec_pubkey_part(ss),
                            spec_signing_id(self@),
                            spec_sig_part(ss),
                        )
                    },
            decreases self.inputs.len() - i,
        {
            let verifier = match self.inputs[i].script_sig.get_verifier() {
                Ok(v) => v,
                Err(e) => {
                    assert(!spec_sigs_valid(self@)) by {
                        assert(!spec_script_sig_ok(self@.inputs[i as int].script_sig));
                    }
                    return Err(e);
                },
            };
            match verifier.verify(message.as_ref()) {
                Ok(_) => {},
                Err(e) => {
                    assert(!spec_sigs_valid(self@)) by {
                        let ss = self@.inputs[i as int].script_sig;
                        assert(!ecdsa_verifies(
                            spec_pubkey_part(ss),
                            spec_signing_id(self@),
                            spec_sig_part(ss),
                        ));
                    }
                    return Err(e);
                },
            }
            i = i + 1;
        }
        Ok(())
    }

    /// Whether this transaction is coinbase-shaped: no inputs, or exactly
    /// the sentinel input.
    pub fn is_coinbase(&self) -> (r: bool)
        ensures
            r == spec_is_coinbase(self@),
    {
        if self.inputs.len() == 0 {
            return true;
        }
        if self.inputs.len() != 1 {
            return false;
        }
        let input = &self.inputs[0];
        input.prev_tx_id.is_zero_hash() && input.prev_out_idx == 0xFFFFFFFF
    }
}

/// Signature round-trip: a transaction freshly signed under a key passes
/// signature verification. Each signed input's script-sig splits back
/// into the signature and the key, and the signing digest recomputed from
/// the signed transaction equals the draft's digest, so every signature
/// verifies.
pub proof fn lemma_signed_tx_sigs_valid(d: DraftTransactionV, key: Seq<u8>, t: TransactionV)
    requires
        key.len() == 33,
        ecdsa_sign_of(key, spec_draft_id(d)).len() == 64,
        crate::crypto::ecdsa_sig_ok(ecdsa_sign_of(key, spec_draft_id(d))),
        crate::crypto::sec1_pubkey_ok(key),
        ecdsa_verifies(key, spec_draft_id(d), ecdsa_sign_of(key, spec_draft_id(d))),
        t == spec_signed_tx(d, key),
    ensures
        spec_sigs_valid(t),
        spec_tx_wf(t),
{
    let digest = spec_draft_id(d);
    let sig = ecdsa_sign_of(key, digest);
    assert(spec_unsigned_inputs(t.inputs) =~= d.inputs);
    assert(spec_signing_id(t) == digest);
    assert forall|i: int| 0 <= i < t.inputs.len() implies {
        let ss = (#[trigger] t.inputs[i]).script_sig;
        spec_script_sig_ok(ss) && ecdsa_verifies(
            spec_pubkey_part(ss),
            spec_signing_id(t),
            spec_sig_part(ss),
        )
    } by {
        let ss = t.inputs[i].script_sig;
        assert(ss == sig + key);
        assert(ss.len() == 97);
        assert(spec_sig_part(ss) =~= sig);
        assert(spec_pubkey_part(ss) =~= key);
    }
}

} // verus!
