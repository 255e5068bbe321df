//! Chain-level laws stated in one place, each proved from the
//! specifications the engine's own contracts use.

use vstd::prelude::*;

use crate::block::BlockV;
use crate::blockchain::{
    spec_apply_block_utxos, spec_input_key, spec_remove_keys, spec_tx_admissible,
    spec_tx_input_keys, spec_unreserve, spec_utxo_after_blocks,
};
use crate::transaction::{TransactionV, TxOutV};
use crate::utxo_set::KeyV;

verus! {

/// UTXO replay: applying blocks one at a time from an empty set, as
/// `add_block` does, reaches exactly the state that replaying the whole
/// chain at once, as `rebuild_utxo_set` does, computes. So a rebuild after
/// any prefix of applications reproduces the set it found.
pub proof fn lemma_utxo_replay(blocks: Seq<BlockV>, b: BlockV)
    ensures
        spec_utxo_after_blocks(blocks.push(b)) == spec_apply_block_utxos(
            spec_utxo_after_blocks(blocks),
            b,
        ),
{
    assert(blocks.push(b).drop_last() =~= blocks);
    assert(blocks.push(b).last() == b);
}

/// No double-spend admission: once a transaction's inputs are reserved,
/// any transaction sharing an input with it is no longer admissible, so of
/// two conflicting submissions at most one can enter the mempool.
pub proof fn lemma_no_double_spend_admission(
    u: Map<KeyV, TxOutV>,
    r0: Set<KeyV>,
    r1: Set<KeyV>,
    tx1: TransactionV,
    tx2: TransactionV,
    i: int,
    j: int,
)
    requires
        0 <= i < tx1.inputs.len(),
        0 <= j < tx2.inputs.len(),
        spec_input_key(tx1.inputs[i]) == spec_input_key(tx2.inputs[j]),
        r1 == r0.union(spec_tx_input_keys(tx1).to_set()),
    ensures
        !spec_tx_admissible(u, r1, tx2),
{
    assert(spec_tx_input_keys(tx1)[i] == spec_input_key(tx1.inputs[i]));
    assert(spec_tx_input_keys(tx1).to_set().contains(spec_input_key(tx1.inputs[i])));
    assert(r1.contains(spec_input_key(tx2.inputs[j])));
}

/// Mempool reservation, on confirmation: once a block's removals are
/// folded out of the reservation set, as `add_block` does, none of the
/// removed outpoints stays reserved.
pub proof fn lemma_unreserve_clears(r: Set<KeyV>, ks: Seq<KeyV>, i: int)
    requires
        0 <= i < ks.len(),
    ensures
        !spec_unreserve(r, ks).contains(ks[i]),
    decreases ks.len(),
{
    if i == ks.len() - 1 {
        assert(ks.last() == ks[i]);
    } else {
        assert(ks.drop_last()[i] == ks[i]);
        lemma_unreserve_clears(r, ks.drop_last(), i);
    }
}

/// Mempool reservation, on confirmation: once a block's removals are
/// folded out of the UTXO map, as `add_block` does, none of the removed
/// outpoints remains spendable.
pub proof fn lemma_removal_clears(m: Map<KeyV, TxOutV>, ks: Seq<KeyV>, i: int)
    requires
        0 <= i < ks.len(),
    ensures
        !spec_remove_keys(m, ks).contains_key(ks[i]),
    decreases ks.len(),
{
    if i == ks.len() - 1 {
        assert(ks.last() == ks[i]);
    } else {
        assert(ks.drop_last()[i] == ks[i]);
        lemma_removal_clears(m, ks.drop_last(), i);
    }
}

} // verus!
