//! The canonical binary encoding: fixed little-endian integers and
//! length-prefixed lists. Producing and verifying paths share these
//! functions, so a signature or id binds to exactly one byte sequence.

use vstd::prelude::*;
use vstd::bytes::{
    lemma_auto_spec_u128_to_from_le_bytes, lemma_auto_spec_u32_to_from_le_bytes,
    lemma_auto_spec_u64_to_from_le_bytes, spec_u128_to_le_bytes, spec_u32_to_le_bytes,
    spec_u64_to_le_bytes, u128_from_le_bytes, u128_to_le_bytes, u32_from_le_bytes,
    u32_to_le_bytes, u64_from_le_bytes, u64_to_le_bytes,
};

use crate::keys::{BlockchainHash, PublicKeyHash, Signature};

use crate::scripts::{Script, ScriptV};

use crate::transaction::{
    Transaction, TransactionV, TxIn, TxInV, TxOut, TxOutV, UnsignedTxIn, UnsignedTxInV,
};

verus! {

/// A byte string under a u64 length prefix.
pub open spec fn spec_encode_bytes(b: Seq<u8>) -> Seq<u8> {
    spec_u64_to_le_bytes(b.len() as u64) + b
}

/// A script: a one-byte tag, then the variant's fields.
pub open spec fn spec_encode_script(s: ScriptV) -> Seq<u8> {
    match s {
        ScriptV::PayToPublicKeyHash { pub_key_hash } => seq![0u8] + pub_key_hash,
    }
}

/// An output: value, then script.
pub open spec fn spec_encode_txout(o: TxOutV) -> Seq<u8> {
    spec_u64_to_le_bytes(o.value) + spec_encode_script(o.script_pubkey)
}

/// An unsigned input: outpoint, then sequence.
pub open spec fn spec_encode_unsigned_txin(i: UnsignedTxInV) -> Seq<u8> {
    i.prev_tx_id + spec_u32_to_le_bytes(i.prev_out_idx) + spec_u32_to_le_bytes(i.sequence)
}

/// A signed input: outpoint, script-sig under a length prefix, sequence.
pub open spec fn spec_encode_txin(i: TxInV) -> Seq<u8> {
    i.prev_tx_id + spec_u32_to_le_bytes(i.prev_out_idx) + spec_encode_bytes(i.script_sig)
        + spec_u32_to_le_bytes(i.sequence)
}

pub open spec fn spec_concat_unsigned_txins(s: Seq<UnsignedTxInV>) -> Seq<u8>
    decreases s.len(),
{
    if s.len() == 0 {
        Seq::empty()
    } else {
        spec_encode_unsigned_txin(s[0]) + spec_concat_unsigned_txins(s.skip(1))
    }
}

pub open spec fn spec_concat_txins(s: Seq<TxInV>) -> Seq<u8>
    decreases s.len(),
{
    if s.len() == 0 {
        Seq::empty()
    } else {
        spec_encode_txin(s[0]) + spec_concat_txins(s.skip(1))
    }
}

pub open spec fn spec_concat_txouts(s: Seq<TxOutV>) -> Seq<u8>
    decreases s.len(),
{
    if s.len() == 0 {
        Seq::empty()
    } else {
        spec_encode_txout(s[0]) + spec_concat_txouts(s.skip(1))
    }
}

/// A list: a u64 count, then the elements one after another.
pub open spec fn spec_encode_unsigned_txins(s: Seq<UnsignedTxInV>) -> Seq<u8> {
    spec_u64_to_le_bytes(s.len() as u64) + spec_concat_unsigned_txins(s)
}

pub open spec fn spec_encode_txins(s: Seq<TxInV>) -> Seq<u8> {
    spec_u64_to_le_bytes(s.len() as u64) + spec_concat_txins(s)
}

pub open spec fn spec_encode_txouts(s: Seq<TxOutV>) -> Seq<u8> {
    spec_u64_to_le_bytes(s.len() as u64) + spec_concat_txouts(s)
}

/// The signing payload of a transaction: unsigned inputs, outputs,
/// timestamp. The signing digest is the double-SHA-256 of these bytes, so
/// it is independent of any signature bytes.
pub open spec fn spec_encode_draft_parts(
    inputs: Seq<UnsignedTxInV>,
    outputs: Seq<TxOutV>,
    timestamp: u128,
) -> Seq<u8> {
    spec_encode_unsigned_txins(inputs) + spec_encode_txouts(outputs) + spec_u128_to_le_bytes(
        timestamp,
    )
}

/// The identifying payload of a signed transaction: signed inputs, outputs,
/// timestamp. The id is the double-SHA-256 of these bytes; the id itself is
/// not part of them.
pub open spec fn spec_encode_tx_parts(
    inputs: Seq<TxInV>,
    outputs: Seq<TxOutV>,
    timestamp: u128,
) -> Seq<u8> {
    spec_encode_txins(inputs) + spec_encode_txouts(outputs) + spec_u128_to_le_bytes(timestamp)
}

proof fn lemma_concat_unsigned_txins_push(s: Seq<UnsignedTxInV>, i: int)
    requires
        0 <= i < s.len(),
    ensures
        spec_concat_unsigned_txins(s.take(i + 1)) == spec_concat_unsigned_txins(s.take(i))
            + spec_encode_unsigned_txin(s[i]),
    decreases i,
{
    if i == 0 {
        assert(s.take(1) =~= seq![s[0]]);
        assert(s.take(1)[0] == s[0]);
        assert(s.take(1)[0] == s[0]);
        assert(s.take(1)[0] == s[0]);
        assert(s.take(1).skip(1) =~= Seq::<UnsignedTxInV>::empty());
        assert(s.take(0) =~= Seq::<UnsignedTxInV>::empty());
        assert(spec_concat_unsigned_txins(Seq::<UnsignedTxInV>::empty()) =~= Seq::<u8>::empty());
        assert(spec_encode_unsigned_txin(s[0]) + Seq::<u8>::empty() =~= spec_encode_unsigned_txin(s[0]));
        assert(spec_concat_unsigned_txins(s.take(1)) =~= spec_encode_unsigned_txin(s[0]));
        assert(spec_concat_unsigned_txins(s.take(0)) + spec_encode_unsigned_txin(s[0])
            =~= spec_encode_unsigned_txin(s[0]));
    } else {
        lemma_concat_unsigned_txins_push(s.skip(1), i - 1);
        assert(s.take(i + 1).skip(1) =~= s.skip(1).take(i));
        assert(s.take(i).skip(1) =~= s.skip(1).take(i - 1));
        assert(s.take(i + 1)[0] == s[0]);
        assert(s.take(i)[0] == s[0]);
        assert(s.skip(1)[i - 1] == s[i]);
        assert(spec_concat_unsigned_txins(s.take(i + 1)) == spec_encode_unsigned_txin(s[0])
            + spec_concat_unsigned_txins(s.skip(1).take(i)));
        assert(spec_encode_unsigned_txin(s[0]) + (spec_concat_unsigned_txins(s.skip(1).take(i - 1))
            + spec_encode_unsigned_txin(s[i])) =~= (spec_encode_unsigned_txin(s[0])
            + spec_concat_unsigned_txins(s.skip(1).take(i - 1))) + spec_encode_unsigned_txin(s[i]));
    }
}

proof fn lemma_concat_txins_push(s: Seq<TxInV>, i: int)
    requires
        0 <= i < s.len(),
    ensures
        spec_concat_txins(s.take(i + 1)) == spec_concat_txins(s.take(i)) + spec_encode_txin(s[i]),
    decreases i,
{
    if i == 0 {
        assert(s.take(1) =~= seq![s[0]]);
        assert(s.take(1)[0] == s[0]);
        assert(s.take(1)[0] == s[0]);
        assert(s.take(1)[0] == s[0]);
        assert(s.take(1).skip(1) =~= Seq::<TxInV>::empty());
        assert(s.take(0) =~= Seq::<TxInV>::empty());
        assert(spec_concat_txins(Seq::<TxInV>::empty()) =~= Seq::<u8>::empty());
        assert(spec_encode_txin(s[0]) + Seq::<u8>::empty() =~= spec_encode_txin(s[0]));
        assert(spec_concat_txins(s.take(1)) =~= spec_encode_txin(s[0]));
        assert(spec_concat_txins(s.take(0)) + spec_encode_txin(s[0]) =~= spec_encode_txin(s[0]));
    } else {
        lemma_concat_txins_push(s.skip(1), i - 1);
        assert(s.take(i + 1).skip(1) =~= s.skip(1).take(i));
        assert(s.take(i).skip(1) =~= s.skip(1).take(i - 1));
        assert(s.take(i + 1)[0] == s[0]);
        assert(s.take(i)[0] == s[0]);
        assert(s.skip(1)[i - 1] == s[i]);
        assert(spec_concat_txins(s.take(i + 1)) == spec_encode_txin(s[0]) + spec_concat_txins(
            s.skip(1).take(i),
        ));
        assert(spec_encode_txin(s[0]) + (spec_concat_txins(s.skip(1).take(i - 1))
            + spec_encode_txin(s[i])) =~= (spec_encode_txin(s[0]) + spec_concat_txins(
            s.skip(1).take(i - 1),
        )) + spec_encode_txin(s[i]));
    }
}

proof fn lemma_concat_txouts_push(s: Seq<TxOutV>, i: int)
    requires
        0 <= i < s.len(),
    ensures
        spec_concat_txouts(s.take(i + 1)) == spec_concat_txouts(s.take(i)) + spec_encode_txout(
            s[i],
        ),
    decreases i,
{
    if i == 0 {
        assert(s.take(1) =~= seq![s[0]]);
        assert(s.take(1)[0] == s[0]);
        assert(s.take(1)[0] == s[0]);
        assert(s.take(1)[0] == s[0]);
        assert(s.take(1).skip(1) =~= Seq::<TxOutV>::empty());
        assert(s.take(0) =~= Seq::<TxOutV>::empty());
        assert(spec_concat_txouts(Seq::<TxOutV>::empty()) =~= Seq::<u8>::empty());
        assert(spec_encode_txout(s[0]) + Seq::<u8>::empty() =~= spec_encode_txout(s[0]));
        assert(spec_concat_txouts(s.take(1)) =~= spec_encode_txout(s[0]));
        assert(spec_concat_txouts(s.take(0)) + spec_encode_txout(s[0]) =~= spec_encode_txout(
            s[0],
        ));
    } else {
        lemma_concat_txouts_push(s.skip(1), i - 1);
        assert(s.take(i + 1).skip(1) =~= s.skip(1).take(i));
        assert(s.take(i).skip(1) =~= s.skip(1).take(i - 1));
        assert(s.take(i + 1)[0] == s[0]);
        assert(s.take(i)[0] == s[0]);
        assert(s.skip(1)[i - 1] == s[i]);
        assert(spec_concat_txouts(s.take(i + 1)) == spec_encode_txout(s[0]) + spec_concat_txouts(
            s.skip(1).take(i),
        ));
        assert(spec_encode_txout(s[0]) + (spec_concat_txouts(s.skip(1).take(i - 1))
            + spec_encode_txout(s[i])) =~= (spec_encode_txout(s[0]) + spec_concat_txouts(
            s.skip(1).take(i - 1),
        )) + spec_encode_txout(s[i]));
    }
}

/// Appends the canonical encoding of a script.
fn push_script(out: &mut Vec<u8>, s: &Script)
    ensures
        final(out)@ == old(out)@ + spec_encode_script(s@),
{
    match s {
        Script::PayToPublicKeyHash { pub_key_hash } => {
            out.push(0u8);
            let mut addr = vstd::slice::slice_to_vec(pub_key_hash.as_ref());
            out.append(&mut addr);
            assert(out@ =~= old(out)@ + spec_encode_script(s@));
        },
    }
}

/// Appends the canonical encoding of an output.
fn push_txout(out: &mut Vec<u8>, o: &TxOut)
    ensures
        final(out)@ == old(out)@ + spec_encode_txout(o@),
{
    let mut value = u64_to_le_bytes(o.value);
    out.append(&mut value);
    push_script(out, &o.script_pubkey);
    assert(out@ =~= old(out)@ + spec_encode_txout(o@));
}

/// Appends the canonical encoding of an unsigned input.
fn push_unsigned_txin(out: &mut Vec<u8>, i: &UnsignedTxIn)
    ensures
        final(out)@ == old(out)@ + spec_encode_unsigned_txin(i@),
{
    let mut id = vstd::slice::slice_to_vec(i.prev_tx_id.as_ref());
    out.append(&mut id);
    let mut idx = u32_to_le_bytes(i.prev_out_idx);
    out.append(&mut idx);
    let mut seq_bytes = u32_to_le_bytes(i.sequence);
    out.append(&mut seq_bytes);
    assert(out@ =~= old(out)@ + spec_encode_unsigned_txin(i@));
}

/// Appends the canonical encoding of a signed input.
fn push_txin(out: &mut Vec<u8>, i: &TxIn)
    ensures
        final(out)@ == old(out)@ + spec_encode_txin(i@),
{
    let mut id = vstd::slice::slice_to_vec(i.prev_tx_id.as_ref());
    out.append(&mut id);
    let mut idx = u32_to_le_bytes(i.prev_out_idx);
    out.append(&mut idx);
    let sig = i.script_sig.to_vec();
    let mut sig_len = u64_to_le_bytes(sig.len() as u64);
    out.append(&mut sig_len);
    let mut sig_bytes = sig;
    out.append(&mut sig_bytes);
    let mut seq_bytes = u32_to_le_bytes(i.sequence);
    out.append(&mut seq_bytes);
    assert(out@ =~= old(out)@ + spec_encode_txin(i@));
}

/// Appends a length-prefixed list of outputs.
fn push_txouts(out: &mut Vec<u8>, s: &Vec<TxOut>)
    ensures
        final(out)@ == old(out)@ + spec_encode_txouts(s.deep_view()),
{
    let mut count = u64_to_le_bytes(s.len() as u64);
    out.append(&mut count);
    let ghost base = out@;
    let mut i: usize = 0;
    while i < s.len()
        invariant
            i <= s.len(),
            out@ == base + spec_concat_txouts(s.deep_view().take(i as int)),
        decreases s.len() - i,
    {
        proof {
            lemma_concat_txouts_push(s.deep_view(), i as int);
        }
        push_txout(out, &s[i]);
        i = i + 1;
    }
    assert(s.deep_view().take(s.len() as int) =~= s.deep_view());
    assert(out@ =~= old(out)@ + spec_encode_txouts(s.deep_view()));
}

/// Appends a length-prefixed list of unsigned inputs.
fn push_unsigned_txins(out: &mut Vec<u8>, s: &Vec<UnsignedTxIn>)
    ensures
        final(out)@ == old(out)@ + spec_encode_unsigned_txins(s.deep_view()),
{
    let mut count = u64_to_le_bytes(s.len() as u64);
    out.append(&mut count);
    let ghost base = out@;
    let mut i: usize = 0;
    while i < s.len()
        invariant
            i <= s.len(),
            out@ == base + spec_concat_unsigned_txins(s.deep_view().take(i as int)),
        decreases s.len() - i,
    {
        proof {
            lemma_concat_unsigned_txins_push(s.deep_view(), i as int);
        }
        push_unsigned_txin(out, &s[i]);
        i = i + 1;
    }
    assert(s.deep_view().take(s.len() as int) =~= s.deep_view());
    assert(out@ =~= old(out)@ + spec_encode_unsigned_txins(s.deep_view()));
}

/// Appends a length-prefixed list of signed inputs.
fn push_txins(out: &mut Vec<u8>, s: &Vec<TxIn>)
    ensures
        final(out)@ == old(out)@ + spec_encode_txins(s.deep_view()),
{
    let mut count = u64_to_le_bytes(s.len() as u64);
    out.append(&mut count);
    let ghost base = out@;
    let mut i: usize = 0;
    while i < s.len()
        invariant
            i <= s.len(),
            out@ == base + spec_concat_txins(s.deep_view().take(i as int)),
        decreases s.len() - i,
    {
        proof {
            lemma_concat_txins_push(s.deep_view(), i as int);
        }
        push_txin(out, &s[i]);
        i = i + 1;
    }
    assert(s.deep_view().take(s.len() as int) =~= s.deep_view());
    assert(out@ =~= old(out)@ + spec_encode_txins(s.deep_view()));
}

/// The signing payload of a draft: unsigned inputs, outputs, timestamp.
pub fn encode_draft_parts(inputs: &Vec<UnsignedTxIn>, outputs: &Vec<TxOut>, timestamp: u128) -> (r:
    Vec<u8>)
    ensures
        r@ == spec_encode_draft_parts(inputs.deep_view(), outputs.deep_view(), timestamp),
{
    let mut out: Vec<u8> = Vec::new();
    push_unsigned_txins(&mut out, inputs);
    push_txouts(&mut out, outputs);
    let mut ts = u128_to_le_bytes(timestamp);
    out.append(&mut ts);
    assert(out@ =~= spec_encode_draft_parts(inputs.deep_view(), outputs.deep_view(), timestamp));
    out
}

/// The identifying payload of a signed transaction: inputs, outputs,
/// timestamp; the id itself is not part of it.
pub fn encode_tx_parts(inputs: &Vec<TxIn>, outputs: &Vec<TxOut>, timestamp: u128) -> (r: Vec<u8>)
    ensures
        r@ == spec_encode_tx_parts(inputs.deep_view(), outputs.deep_view(), timestamp),
{
    let mut out: Vec<u8> = Vec::new();
    push_txins(&mut out, inputs);
    push_txouts(&mut out, outputs);
    let mut ts = u128_to_le_bytes(timestamp);
    out.append(&mut ts);
    assert(out@ =~= spec_encode_tx_parts(inputs.deep_view(), outputs.deep_view(), timestamp));
    out
}

/// Reads `n` raw bytes at `pos`.
pub(crate) fn read_bytes(bytes: &[u8], pos: usize, n: usize) -> (r: Option<(Vec<u8>, usize)>)
    ensures
        r matches Some(p) ==> {
            &&& pos + n <= bytes@.len()
            &&& p.1 == pos + n
            &&& p.0@ == bytes@.subrange(pos as int, pos + n)
        },
        pos + n <= bytes@.len() ==> r is Some,
{
    if n > bytes.len() || pos > bytes.len() - n {
        return None;
    }
    let v = vstd::slice::slice_to_vec(vstd::slice::slice_subrange(bytes, pos, pos + n));
    Some((v, pos + n))
}

/// Reads a little-endian u32 at `pos`.
pub(crate) fn read_u32(bytes: &[u8], pos: usize) -> (r: Option<(u32, usize)>)
    ensures
        r matches Some(p) ==> {
            &&& p.1 == pos + 4 <= bytes@.len()
            &&& spec_u32_to_le_bytes(p.0) == bytes@.subrange(pos as int, pos + 4)
        },
        pos + 4 <= bytes@.len() ==> r is Some,
{
    let chunk = match read_bytes(bytes, pos, 4) {
        Some(p) => p.0,
        None => {
            return None;
        },
    };
    let v = u32_from_le_bytes(chunk.as_slice());
    proof {
        lemma_auto_spec_u32_to_from_le_bytes();
    }
    Some((v, pos + 4))
}

/// Reads a little-endian u64 at `pos`.
pub(crate) fn read_u64(bytes: &[u8], pos: usize) -> (r: Option<(u64, usize)>)
    ensures
        r matches Some(p) ==> {
            &&& p.1 == pos + 8 <= bytes@.len()
            &&& spec_u64_to_le_bytes(p.0) == bytes@.subrange(pos as int, pos + 8)
        },
        pos + 8 <= bytes@.len() ==> r is Some,
{
    let chunk = match read_bytes(bytes, pos, 8) {
        Some(p) => p.0,
        None => {
            return None;
        },
    };
    let v = u64_from_le_bytes(chunk.as_slice());
    proof {
        lemma_auto_spec_u64_to_from_le_bytes();
    }
    Some((v, pos + 8))
}

/// Reads a little-endian u128 at `pos`.
pub(crate) fn read_u128(bytes: &[u8], pos: usize) -> (r: Option<(u128, usize)>)
    ensures
        r matches Some(p) ==> {
            &&& p.1 == pos + 16 <= bytes@.len()
            &&& spec_u128_to_le_bytes(p.0) == bytes@.subrange(pos as int, pos + 16)
        },
        pos + 16 <= bytes@.len() ==> r is Some,
{
    let chunk = match read_bytes(bytes, pos, 16) {
        Some(p) => p.0,
        None => {
            return None;
        },
    };
    let v = u128_from_le_bytes(chunk.as_slice());
    proof {
        lemma_auto_spec_u128_to_from_le_bytes();
    }
    Some((v, pos + 16))
}

/// Reads a 32-byte chain hash at `pos`.
pub(crate) fn read_hash(bytes: &[u8], pos: usize) -> (r: Option<(BlockchainHash, usize)>)
    ensures
        r matches Some(p) ==> {
            &&& p.1 == pos + 32 <= bytes@.len()
            &&& p.0@ == bytes@.subrange(pos as int, pos + 32)
        },
        pos + 32 <= bytes@.len() ==> r is Some,
{
    let chunk = match read_bytes(bytes, pos, 32) {
        Some(p) => p.0,
        None => {
            return None;
        },
    };
    Some((BlockchainHash::new(chunk), pos + 32))
}

/// Reads a length-prefixed count that must fit the platform.
pub(crate) fn read_count(bytes: &[u8], pos: usize) -> (r: Option<(usize, usize)>)
    ensures
        r matches Some(p) ==> {
            &&& p.1 == pos + 8 <= bytes@.len()
            &&& spec_u64_to_le_bytes(p.0 as u64) == bytes@.subrange(pos as int, pos + 8)
        },
{
    let (n, next) = match read_u64(bytes, pos) {
        Some(p) => p,
        None => {
            return None;
        },
    };
    if n > usize::MAX as u64 {
        return None;
    }
    Some((n as usize, next))
}

/// Parses one signed input at `pos`; whatever it yields re-encodes to
/// exactly the consumed bytes.
fn parse_txin(bytes: &[u8], pos: usize) -> (r: Option<(TxIn, usize)>)
    ensures
        r matches Some(p) ==> {
            &&& pos <= p.1 <= bytes@.len()
            &&& spec_encode_txin(p.0@) == bytes@.subrange(pos as int, p.1 as int)
        },
{
    let (prev_tx_id, pos1) = match read_hash(bytes, pos) {
        Some(p) => p,
        None => {
            return None;
        },
    };
    let (prev_out_idx, pos2) = match read_u32(bytes, pos1) {
        Some(p) => p,
        None => {
            return None;
        },
    };
    let (sig_len, pos3) = match read_count(bytes, pos2) {
        Some(p) => p,
        None => {
            return None;
        },
    };
    let (sig_bytes, pos4) = match read_bytes(bytes, pos3, sig_len) {
        Some(p) => p,
        None => {
            return None;
        },
    };
    let (sequence, pos5) = match read_u32(bytes, pos4) {
        Some(p) => p,
        None => {
            return None;
        },
    };
    let script_sig = Signature::from_bytes(sig_bytes.as_slice());
    let txin = TxIn { prev_tx_id, prev_out_idx, script_sig, sequence };
    proof {
        assert(spec_encode_txin(txin@) =~= bytes@.subrange(pos as int, pos5 as int));
    }
    Some((txin, pos5))
}

/// Parses one output at `pos`.
fn parse_txout(bytes: &[u8], pos: usize) -> (r: Option<(TxOut, usize)>)
    ensures
        r matches Some(p) ==> {
            &&& pos <= p.1 <= bytes@.len()
            &&& spec_encode_txout(p.0@) == bytes@.subrange(pos as int, p.1 as int)
        },
{
    let (value, pos1) = match read_u64(bytes, pos) {
        Some(p) => p,
        None => {
            return None;
        },
    };
    let (tag, pos2) = match read_bytes(bytes, pos1, 1) {
        Some(p) => p,
        None => {
            return None;
        },
    };
    if tag[0] != 0 {
        return None;
    }
    let (addr_bytes, pos3) = match read_bytes(bytes, pos2, 20) {
        Some(p) => p,
        None => {
            return None;
        },
    };
    let pub_key_hash = PublicKeyHash::new(addr_bytes);
    let txout = TxOut { value, script_pubkey: Script::PayToPublicKeyHash { pub_key_hash } };
    proof {
        assert(tag@ =~= seq![0u8]);
        assert(spec_encode_txout(txout@) =~= bytes@.subrange(pos as int, pos3 as int));
    }
    Some((txout, pos3))
}

/// Parses a length-prefixed input list at `pos`.
fn parse_txins(bytes: &[u8], pos: usize) -> (r: Option<(Vec<TxIn>, usize)>)
    ensures
        r matches Some(p) ==> {
            &&& pos <= p.1 <= bytes@.len()
            &&& spec_encode_txins(p.0.deep_view()) == bytes@.subrange(pos as int, p.1 as int)
        },
{
    let (count, mut cur) = match read_count(bytes, pos) {
        Some(p) => p,
        None => {
            return None;
        },
    };
    let mut items: Vec<TxIn> = Vec::new();
    let mut i: usize = 0;
    while i < count
        invariant
            i <= count,
            pos + 8 <= cur <= bytes@.len(),
            items@.len() == i,
            spec_concat_txins(items.deep_view()) =~= bytes@.subrange(pos + 8, cur as int),
        decreases count - i,
    {
        let (item, next) = match parse_txin(bytes, cur) {
            Some(p) => p,
            None => {
                return None;
            },
        };
        let ghost pre = items.deep_view();
        items.push(item);
        proof {
            assert(forall|m: int| 0 <= m < pre.len() ==> #[trigger] items.deep_view()[m]
                == pre[m]);
            assert(items.deep_view()[pre.len() as int] == item@);
            assert(items.deep_view().drop_last() =~= pre);
            lemma_concat_txins_push(items.deep_view(), pre.len() as int);
            assert(items.deep_view().take(pre.len() as int) =~= pre);
            assert(items.deep_view().take(pre.len() as int + 1) =~= items.deep_view());
            assert(spec_concat_txins(items.deep_view()) =~= bytes@.subrange(pos + 8, next as int));
        }
        cur = next;
        i = i + 1;
    }
    proof {
        assert(spec_u64_to_le_bytes(count as u64) == bytes@.subrange(pos as int, pos + 8));
        assert(items.deep_view().len() == count);
        assert(spec_encode_txins(items.deep_view()) =~= bytes@.subrange(pos as int, cur as int));
    }
    Some((items, cur))
}

/// Parses a length-prefixed output list at `pos`.
fn parse_txouts(bytes: &[u8], pos: usize) -> (r: Option<(Vec<TxOut>, usize)>)
    ensures
        r matches Some(p) ==> {
            &&& pos <= p.1 <= bytes@.len()
            &&& spec_encode_txouts(p.0.deep_view()) == bytes@.subrange(pos as int, p.1 as int)
        },
{
    let (count, mut cur) = match read_count(bytes, pos) {
        Some(p) => p,
        None => {
            return None;
        },
    };
    let mut items: Vec<TxOut> = Vec::new();
    let mut i: usize = 0;
    while i < count
        invariant
            i <= count,
            pos + 8 <= cur <= bytes@.len(),
            items@.len() == i,
            spec_concat_txouts(items.deep_view()) =~= bytes@.subrange(pos + 8, cur as int),
        decreases count - i,
    {
        let (item, next) = match parse_txout(bytes, cur) {
            Some(p) => p,
            None => {
                return None;
            },
        };
        let ghost pre = items.deep_view();
        items.push(item);
        proof {
            assert(forall|m: int| 0 <= m < pre.len() ==> #[trigger] items.deep_view()[m]
                == pre[m]);
            assert(items.deep_view()[pre.len() as int] == item@);
            assert(items.deep_view().drop_last() =~= pre);
            lemma_concat_txouts_push(items.deep_view(), pre.len() as int);
            assert(items.deep_view().take(pre.len() as int) =~= pre);
            assert(items.deep_view().take(pre.len() as int + 1) =~= items.deep_view());
            assert(spec_concat_txouts(items.deep_view()) =~= bytes@.subrange(
                pos + 8,
                next as int,
            ));
        }
        cur = next;
        i = i + 1;
    }
    proof {
        assert(spec_u64_to_le_bytes(count as u64) == bytes@.subrange(pos as int, pos + 8));
        assert(items.deep_view().len() == count);
        assert(spec_encode_txouts(items.deep_view()) =~= bytes@.subrange(pos as int, cur as int));
    }
    Some((items, cur))
}

/// Parses one wire transaction at `pos`: the id, then the identifying
/// payload. Whatever comes back re-encodes to exactly the consumed bytes,
/// so a parse can never invent a transaction the encoding would not
/// produce. Trailing bytes are left for the caller.
pub fn decode_transaction(bytes: &[u8], pos: usize) -> (r: Option<(Transaction, usize)>)
    ensures
        r matches Some(p) ==> {
            &&& pos <= p.1 <= bytes@.len()
            &&& p.0@.id + spec_encode_tx_parts(p.0@.inputs, p.0@.outputs, p.0@.timestamp)
                == bytes@.subrange(pos as int, p.1 as int)
        },
{
    let (id, pos1) = match read_hash(bytes, pos) {
        Some(p) => p,
        None => {
            return None;
        },
    };
    let (inputs, pos2) = match parse_txins(bytes, pos1) {
        Some(p) => p,
        None => {
            return None;
        },
    };
    let (outputs, pos3) = match parse_txouts(bytes, pos2) {
        Some(p) => p,
        None => {
            return None;
        },
    };
    let (timestamp, pos4) = match read_u128(bytes, pos3) {
        Some(p) => p,
        None => {
            return None;
        },
    };
    let tx = Transaction { id, inputs, outputs, timestamp };
    proof {
        assert(tx@.id + spec_encode_tx_parts(tx@.inputs, tx@.outputs, tx@.timestamp)
            =~= bytes@.subrange(pos as int, pos4 as int));
    }
    Some((tx, pos4))
}

} // verus!
