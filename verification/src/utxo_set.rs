//! The UTXO set: the authoritative map from outpoint to unspent output,
//! with mempool reservations layered on top.

use vstd::prelude::*;

use crate::keys::{BlockchainHash, PublicKeyHash};
use crate::scripts::{Script, ScriptV};
use crate::transaction::{TxOut, TxOutV, UTXO, UTXOV};

verus! {

/// An outpoint key as plain values.
pub type KeyV = (Seq<u8>, u32);

/// What a stored output reveals to the address index.
pub trait TxOutRecipient {
    /// The address the value is locked to.
    spec fn spec_address(&self) -> Seq<u8>;

    /// The locked value.
    spec fn spec_amount(&self) -> u64;

    fn get_address(&self) -> (r: PublicKeyHash)
        ensures
            r@ == self.spec_address(),
    ;

    fn get_received_amount(&self) -> (r: u64)
        ensures
            r == self.spec_amount(),
    ;
}

impl TxOutRecipient for TxOut {
    open spec fn spec_address(&self) -> Seq<u8> {
        match self.script_pubkey@ {
            ScriptV::PayToPublicKeyHash { pub_key_hash } => pub_key_hash,
        }
    }

    open spec fn spec_amount(&self) -> u64 {
        self.value
    }

    fn get_address(&self) -> (r: PublicKeyHash) {
        match &self.script_pubkey {
            Script::PayToPublicKeyHash { pub_key_hash } => pub_key_hash.clone(),
        }
    }

    fn get_received_amount(&self) -> (r: u64) {
        self.value
    }
}

/// The map an entry list denotes: later entries win, though the set keeps
/// its keys unique so each key occurs once.
pub open spec fn spec_entries_map(s: Seq<(KeyV, TxOutV)>) -> Map<KeyV, TxOutV>
    decreases s.len(),
{
    if s.len() == 0 {
        Map::empty()
    } else {
        spec_entries_map(s.drop_last()).insert(s.last().0, s.last().1)
    }
}

/// No key occurs twice.
pub open spec fn spec_uniq_keys(s: Seq<(KeyV, TxOutV)>) -> bool {
    forall|i: int, j: int| 0 <= i < j < s.len() ==> (#[trigger] s[i]).0 != (#[trigger] s[j]).0
}

proof fn lemma_entries_map_contains(s: Seq<(KeyV, TxOutV)>, k: KeyV)
    ensures
        spec_entries_map(s).contains_key(k) <==> exists|i: int|
            0 <= i < s.len() && (#[trigger] s[i]).0 == k,
    decreases s.len(),
{
    if s.len() > 0 {
        lemma_entries_map_contains(s.drop_last(), k);
        if s.last().0 == k {
            assert(s[s.len() - 1].0 == k);
        } else {
            if spec_entries_map(s).contains_key(k) {
                let i = choose|i: int| 0 <= i < s.drop_last().len() && (#[trigger] s.drop_last()[
                    i
                ]).0 == k;
                assert(s[i].0 == k);
            }
            if exists|i: int| 0 <= i < s.len() && (#[trigger] s[i]).0 == k {
                let i = choose|i: int| 0 <= i < s.len() && (#[trigger] s[i]).0 == k;
                assert(i < s.len() - 1);
                assert(s.drop_last()[i].0 == k);
            }
        }
    }
}

proof fn lemma_entries_map_index(s: Seq<(KeyV, TxOutV)>, i: int)
    requires
        spec_uniq_keys(s),
        0 <= i < s.len(),
    ensures
        spec_entries_map(s).contains_key(s[i].0),
        spec_entries_map(s)[s[i].0] == s[i].1,
    decreases s.len(),
{
    if i == s.len() - 1 {
        assert(spec_entries_map(s) == spec_entries_map(s.drop_last()).insert(
            s.last().0,
            s.last().1,
        ));
    } else {
        assert(spec_uniq_keys(s.drop_last())) by {
            assert(forall|a: int, b: int|
                0 <= a < b < s.drop_last().len() ==> (#[trigger] s.drop_last()[a]).0 != (
                #[trigger] s.drop_last()[b]).0) by {
                assert(forall|a: int|
                    0 <= a < s.drop_last().len() ==> #[trigger] s.drop_last()[a] == s[a]);
            }
        }
        assert(s.drop_last()[i] == s[i]);
        lemma_entries_map_index(s.drop_last(), i);
        assert(s[i].0 != s.last().0);
    }
}

proof fn lemma_entries_map_update(s: Seq<(KeyV, TxOutV)>, i: int, v: TxOutV)
    requires
        spec_uniq_keys(s),
        0 <= i < s.len(),
    ensures
        spec_entries_map(s.update(i, (s[i].0, v))) == spec_entries_map(s).insert(s[i].0, v),
        spec_uniq_keys(s.update(i, (s[i].0, v))),
    decreases s.len(),
{
    let s2 = s.update(i, (s[i].0, v));
    assert(spec_uniq_keys(s2)) by {
        assert(forall|a: int| 0 <= a < s.len() ==> (#[trigger] s2[a]).0 == s[a].0);
    }
    if i == s.len() - 1 {
        assert(s2.drop_last() =~= s.drop_last());
        assert(s2.last() == (s[i].0, v));
        assert(spec_entries_map(s2) == spec_entries_map(s.drop_last()).insert(s[i].0, v));
        assert(spec_entries_map(s) == spec_entries_map(s.drop_last()).insert(
            s.last().0,
            s.last().1,
        ));
        assert(spec_entries_map(s.drop_last()).insert(s.last().0, s.last().1).insert(s[i].0, v)
            =~= spec_entries_map(s.drop_last()).insert(s[i].0, v));
    } else {
        assert(spec_uniq_keys(s.drop_last())) by {
            assert(forall|a: int|
                0 <= a < s.drop_last().len() ==> #[trigger] s.drop_last()[a] == s[a]);
        }
        assert(s.drop_last()[i] == s[i]);
        lemma_entries_map_update(s.drop_last(), i, v);
        assert(s2.drop_last() =~= s.drop_last().update(i, (s[i].0, v)));
        assert(s2.last() == s.last());
        assert(spec_entries_map(s2) == spec_entries_map(s.drop_last()).insert(s[i].0, v).insert(
            s.last().0,
            s.last().1,
        ));
        assert(s[i].0 != s.last().0);
        assert(spec_entries_map(s.drop_last()).insert(s[i].0, v).insert(s.last().0, s.last().1)
            =~= spec_entries_map(s.drop_last()).insert(s.last().0, s.last().1).insert(s[i].0, v));
    }
}

proof fn lemma_entries_map_remove(s: Seq<(KeyV, TxOutV)>, i: int)
    requires
        spec_uniq_keys(s),
        0 <= i < s.len(),
    ensures
        spec_entries_map(s.remove(i)) == spec_entries_map(s).remove(s[i].0),
        spec_uniq_keys(s.remove(i)),
    decreases s.len(),
{
    let s2 = s.remove(i);
    assert(spec_uniq_keys(s2)) by {
        assert(forall|a: int|
            0 <= a < s2.len() ==> #[trigger] s2[a] == if a < i {
                s[a]
            } else {
                s[a + 1]
            });
    }
    if i == s.len() - 1 {
        assert(s2 =~= s.drop_last());
        lemma_entries_map_contains(s.drop_last(), s[i].0);
        assert(forall|a: int| 0 <= a < s.drop_last().len() ==> #[trigger] s.drop_last()[a] == s[a]);
        assert(!spec_entries_map(s.drop_last()).contains_key(s[i].0));
        assert(spec_entries_map(s) == spec_entries_map(s.drop_last()).insert(
            s.last().0,
            s.last().1,
        ));
        assert(spec_entries_map(s).remove(s[i].0) =~= spec_entries_map(s.drop_last()));
    } else {
        assert(spec_uniq_keys(s.drop_last())) by {
            assert(forall|a: int|
                0 <= a < s.drop_last().len() ==> #[trigger] s.drop_last()[a] == s[a]);
        }
        assert(s.drop_last()[i] == s[i]);
        lemma_entries_map_remove(s.drop_last(), i);
        assert(s2.drop_last() =~= s.drop_last().remove(i));
        assert(s2.last() == s.last());
        assert(spec_entries_map(s2) == spec_entries_map(s.drop_last()).remove(s[i].0).insert(
            s.last().0,
            s.last().1,
        ));
        assert(s[i].0 != s.last().0);
        assert(spec_entries_map(s.drop_last()).remove(s[i].0).insert(s.last().0, s.last().1)
            =~= spec_entries_map(s.drop_last()).insert(s.last().0, s.last().1).remove(s[i].0));
    }
}

/// The UTXO set: outpoint-keyed unspent outputs and the subset of keys a
/// pending mempool transaction has reserved.
pub struct UTXOSet {
    data: Vec<((BlockchainHash, u32), TxOut)>,
    reserved: Vec<(BlockchainHash, u32)>,
}

impl UTXOSet {
    /// The key list holds no duplicates, and every reserved key exists in
    /// the main map. `new` establishes it and every method preserves it.
    pub closed spec fn wf(self) -> bool {
        &&& spec_uniq_keys(self.data.deep_view())
        &&& (forall|i: int, j: int|
            0 <= i < j < self.reserved@.len() ==> self.reserved.deep_view()[i]
                != self.reserved.deep_view()[j])
        &&& (forall|i: int|
            0 <= i < self.reserved@.len() ==> self.utxos().contains_key(
                #[trigger] self.reserved.deep_view()[i],
            ))
    }

    /// The map from outpoint to output this set holds.
    pub closed spec fn utxos(&self) -> Map<KeyV, TxOutV> {
        spec_entries_map(self.data.deep_view())
    }

    /// The set of reserved outpoints.
    pub closed spec fn reserved_keys(&self) -> Set<KeyV> {
        self.reserved.deep_view().to_set()
    }

    pub fn new() -> (r: Self)
        ensures
            r.wf(),
            r.utxos() == Map::<KeyV, TxOutV>::empty(),
            r.reserved_keys() == Set::<KeyV>::empty(),
    {
        let r = UTXOSet { data: Vec::new(), reserved: Vec::new() };
        proof {
            assert(r.data.deep_view() =~= Seq::<((Seq<u8>, u32), TxOutV)>::empty());
            assert(r.reserved.deep_view() =~= Seq::<(Seq<u8>, u32)>::empty());
            assert(r.reserved_keys() =~= Set::<KeyV>::empty());
        }
        r
    }

    /// Finds the position of a key in the entry list.
    fn find(&self, key: &(BlockchainHash, u32)) -> (r: Option<usize>)
        ensures
            r matches Some(i) ==> i < self.data@.len() && self.data.deep_view()[i as int].0
                == key.deep_view(),
            r is None ==> forall|i: int|
                0 <= i < self.data@.len() ==> (#[trigger] self.data.deep_view()[i]).0
                    != key.deep_view(),
    {
        let mut i: usize = 0;
        while i < self.data.len()
            invariant
                i <= self.data@.len(),
                forall|j: int|
                    0 <= j < i ==> (#[trigger] self.data.deep_view()[j]).0 != key.deep_view(),
            decreases self.data@.len() - i,
        {
            let entry = &self.data[i];
            if entry.0.0 == key.0 && entry.0.1 == key.1 {
                proof {
                    assert(self.data.deep_view()[i as int].0 == key.deep_view());
                }
                return Some(i);
            }
            proof {
                assert(self.data.deep_view()[i as int].0 != key.deep_view());
            }
            i = i + 1;
        }
        None
    }

    /// Finds the position of a key in the reservation list.
    fn find_reserved(&self, key: &(BlockchainHash, u32)) -> (r: Option<usize>)
        ensures
            r matches Some(i) ==> i < self.reserved@.len() && self.reserved.deep_view()[i as int]
                == key.deep_view(),
            r is None ==> forall|j: int|
                0 <= j < self.reserved@.len() ==> #[trigger] self.reserved.deep_view()[j]
                    != key.deep_view(),
    {
        let mut i: usize = 0;
        while i < self.reserved.len()
            invariant
                i <= self.reserved@.len(),
                forall|j: int|
                    0 <= j < i ==> #[trigger] self.reserved.deep_view()[j] != key.deep_view(),
            decreases self.reserved@.len() - i,
        {
            let entry = &self.reserved[i];
            if entry.0 == key.0 && entry.1 == key.1 {
                proof {
                    assert(self.reserved.deep_view()[i as int] == key.deep_view());
                }
                return Some(i);
            }
            proof {
                assert(self.reserved.deep_view()[i as int] != key.deep_view());
            }
            i = i + 1;
        }
        None
    }

    /// Looks an outpoint up.
    pub fn get(&self, key: &(BlockchainHash, u32)) -> (r: Option<&TxOut>)
        requires
            self.wf(),
        ensures
            r is Some <==> self.utxos().contains_key(key.deep_view()),
            r matches Some(o) ==> o@ == self.utxos()[key.deep_view()],
    {
        proof {
            lemma_entries_map_contains(self.data.deep_view(), key.deep_view());
        }
        match self.find(key) {
            Some(i) => {
                proof {
                    lemma_entries_map_index(self.data.deep_view(), i as int);
                }
                Some(&self.data[i].1)
            },
            None => None,
        }
    }

    /// Adds or replaces an entry. Reservations are untouched.
    pub fn insert(&mut self, key: (BlockchainHash, u32), value: TxOut) -> (r: Option<TxOut>)
        requires
            old(self).wf(),
        ensures
            final(self).wf(),
            final(self).utxos() == old(self).utxos().insert(key.deep_view(), value@),
            final(self).reserved_keys() == old(self).reserved_keys(),
            r is Some <==> old(self).utxos().contains_key(key.deep_view()),
            r matches Some(o) ==> o@ == old(self).utxos()[key.deep_view()],
    {
        proof {
            lemma_entries_map_contains(self.data.deep_view(), key.deep_view());
        }
        let found = self.find(&key);
        match found {
            Some(i) => {
                proof {
                    lemma_entries_map_index(self.data.deep_view(), i as int);
                    lemma_entries_map_remove(self.data.deep_view(), i as int);
                }
                let ghost pre = self.data.deep_view();
                let old_entry = self.data.remove(i);
                proof {
                    assert(self.data.deep_view() =~= pre.remove(i as int)) by {
                        assert(forall|m: int|
                            0 <= m < self.data@.len() ==> #[trigger] self.data.deep_view()[m]
                                == if m < i {
                                pre[m]
                            } else {
                                pre[m + 1]
                            });
                    }
                    lemma_entries_map_contains(self.data.deep_view(), key.deep_view());
                }
                let ghost mid = self.data.deep_view();
                self.data.push((key, value));
                proof {
                    assert(self.data.deep_view() =~= mid.push((key.deep_view(), value@))) by {
                        assert(forall|m: int|
                            0 <= m < mid.len() ==> #[trigger] self.data.deep_view()[m] == mid[m]);
                        assert(self.data.deep_view()[mid.len() as int] == (
                            key.deep_view(),
                            value@,
                        ));
                    }
                    assert(self.data.deep_view().drop_last() =~= mid);
                    assert(spec_uniq_keys(self.data.deep_view())) by {
                        assert(forall|m: int|
                            0 <= m < mid.len() ==> (#[trigger] mid[m]).0 != key.deep_view());
                    }
                    assert(final(self).utxos() =~= old(self).utxos().insert(
                        key.deep_view(),
                        value@,
                    ));
                }
                Some(old_entry.1)
            },
            None => {
                let ghost old_data = self.data.deep_view();
                self.data.push((key, value));
                proof {
                    assert(self.data.deep_view() =~= old_data.push((key.deep_view(), value@))) by {
                        assert(forall|m: int|
                            0 <= m < old_data.len() ==> #[trigger] self.data.deep_view()[m]
                                == old_data[m]);
                        assert(self.data.deep_view()[old_data.len() as int] == (
                            key.deep_view(),
                            value@,
                        ));
                    }
                    assert(self.data.deep_view().drop_last() =~= old_data);
                    assert(spec_uniq_keys(self.data.deep_view())) by {
                        assert(forall|m: int|
                            0 <= m < old_data.len() ==> (#[trigger] old_data[m]).0
                                != key.deep_view());
                    }
                    assert(final(self).utxos() == old(self).utxos().insert(
                        key.deep_view(),
                        value@,
                    ));
                }
                None
            },
        }
    }

    /// Deletes an outpoint from the map and clears its reservation.
    pub fn remove(&mut self, key: &(BlockchainHash, u32)) -> (r: Option<TxOut>)
        requires
            old(self).wf(),
        ensures
            final(self).wf(),
            final(self).utxos() == old(self).utxos().remove(key.deep_view()),
            final(self).reserved_keys() == old(self).reserved_keys().remove(key.deep_view()),
            r is Some <==> old(self).utxos().contains_key(key.deep_view()),
            r matches Some(o) ==> o@ == old(self).utxos()[key.deep_view()],
    {
        proof {
            lemma_entries_map_contains(self.data.deep_view(), key.deep_view());
        }
        let ghost old_res = self.reserved.deep_view();
        match self.find_reserved(key) {
            Some(i) => {
                let ghost pre = self.reserved.deep_view();
                self.reserved.remove(i);
                proof {
                    assert(self.reserved.deep_view() =~= pre.remove(i as int)) by {
                        assert(forall|m: int|
                            0 <= m < self.reserved@.len() ==> #[trigger] self.reserved.deep_view()[
                                m
                            ] == if m < i {
                                pre[m]
                            } else {
                                pre[m + 1]
                            });
                    }
                    assert(self.reserved.deep_view().to_set() =~= pre.to_set().remove(
                        key.deep_view(),
                    )) by {
                        assert(pre[i as int] == key.deep_view());
                        assert(forall|m: int, n: int|
                            0 <= m < n < pre.len() ==> #[trigger] pre[m] != #[trigger] pre[n]);
                        assert(forall|m: int|
                            0 <= m < pre.len() && m != i ==> #[trigger] pre[m]
                                != key.deep_view());
                        assert(forall|m: int|
                            0 <= m < self.reserved.deep_view().len()
                                ==> #[trigger] self.reserved.deep_view()[m] != key.deep_view());
                        assert forall|k2: KeyV|
                            pre.to_set().remove(key.deep_view()).contains(
                                k2,
                            ) implies self.reserved.deep_view().to_set().contains(k2) by {
                            let m = choose|m: int| 0 <= m < pre.len() && pre[m] == k2;
                            if m < i {
                                assert(self.reserved.deep_view()[m] == k2);
                            } else {
                                assert(m > i);
                                assert(self.reserved.deep_view()[m - 1] == k2);
                            }
                        }
                    }
                }
            },
            None => {
                proof {
                    assert(forall|j: int|
                        0 <= j < old_res.len() ==> #[trigger] old_res[j] != key.deep_view());
                    assert(self.reserved.deep_view().to_set() =~= old_res.to_set().remove(
                        key.deep_view(),
                    ));
                }
            },
        }
        let found = self.find(key);
        match found {
            Some(di) => {
                proof {
                    lemma_entries_map_index(self.data.deep_view(), di as int);
                    lemma_entries_map_remove(self.data.deep_view(), di as int);
                }
                let ghost pre = self.data.deep_view();
                let entry = self.data.remove(di);
                proof {
                    assert(self.data.deep_view() =~= pre.remove(di as int)) by {
                        assert(forall|m: int|
                            0 <= m < self.data@.len() ==> #[trigger] self.data.deep_view()[m]
                                == if m < di {
                                pre[m]
                            } else {
                                pre[m + 1]
                            });
                    }
                }
                Some(entry.1)
            },
            None => {
                proof {
                    if old(self).utxos().contains_key(key.deep_view()) {
                        let w = choose|w: int|
                            0 <= w < self.data.deep_view().len() && (
                            #[trigger] self.data.deep_view()[w]).0 == key.deep_view();
                        assert(false);
                    }
                    assert(final(self).utxos() =~= old(self).utxos().remove(key.deep_view()));
                }
                None
            },
        }
    }

    /// Empties the map and every reservation, ahead of a rebuild.
    pub fn clear(&mut self)
        ensures
            final(self).wf(),
            final(self).utxos() == Map::<KeyV, TxOutV>::empty(),
            final(self).reserved_keys() == Set::<KeyV>::empty(),
    {
        self.data.clear();
        self.reserved.clear();
        proof {
            assert(self.data.deep_view() =~= Seq::<((Seq<u8>, u32), TxOutV)>::empty());
            assert(self.reserved.deep_view() =~= Seq::<(Seq<u8>, u32)>::empty());
            assert(self.reserved.deep_view().to_set() =~= Set::<KeyV>::empty());
        }
    }

    /// Whether an outpoint is reserved by a pending transaction. A
    /// reserved key always exists in the main map.
    pub fn is_reserved(&self, key: &(BlockchainHash, u32)) -> (r: bool)
        requires
            self.wf(),
        ensures
            r == self.reserved_keys().contains(key.deep_view()),
            r ==> self.utxos().contains_key(key.deep_view()),
    {
        let mut i: usize = 0;
        while i < self.reserved.len()
            invariant
                self.wf(),
                i <= self.reserved@.len(),
                forall|j: int|
                    0 <= j < i ==> #[trigger] self.reserved.deep_view()[j] != key.deep_view(),
            decreases self.reserved@.len() - i,
        {
            let entry = &self.reserved[i];
            if entry.0 == key.0 && entry.1 == key.1 {
                proof {
                    assert(self.reserved.deep_view()[i as int] == key.deep_view());
                    assert(self.utxos().contains_key(self.reserved.deep_view()[i as int]));
                    assert(self.reserved.deep_view().to_set().contains(
                        self.reserved.deep_view()[i as int],
                    ));
                }
                return true;
            }
            proof {
                assert(self.reserved.deep_view()[i as int] != key.deep_view());
            }
            i = i + 1;
        }
        proof {
            if self.reserved_keys().contains(key.deep_view()) {
                let j = choose|j: int|
                    0 <= j < self.reserved.deep_view().len() && self.reserved.deep_view()[j]
                        == key.deep_view();
                assert(false);
            }
        }
        false
    }

    /// Marks the given outpoints reserved. Only keys present in the map
    /// are recorded: a reservation never creates an entry.
    pub fn reserve(&mut self, keys: Vec<(BlockchainHash, u32)>)
        requires
            old(self).wf(),
        ensures
            final(self).wf(),
            final(self).utxos() == old(self).utxos(),
            final(self).reserved_keys() == old(self).reserved_keys().union(
                keys.deep_view().to_set().intersect(old(self).utxos().dom()),
            ),
    {
        let ghost target = old(self).reserved_keys().union(
            keys.deep_view().to_set().intersect(old(self).utxos().dom()),
        );
        let mut i: usize = 0;
        while i < keys.len()
            invariant
                i <= keys@.len(),
                self.wf(),
                self.utxos() == old(self).utxos(),
                self.reserved_keys() == old(self).reserved_keys().union(
                    keys.deep_view().take(i as int).to_set().intersect(old(self).utxos().dom()),
                ),
            decreases keys@.len() - i,
        {
            let key = &keys[i];
            let present = {
                let g = self.get(key);
                g.is_some()
            };
            let already = self.is_reserved(key);
            let ghost pre_res = self.reserved.deep_view();
            if present && !already {
                self.reserved.push((key.0.clone(), key.1));
                proof {
                    assert(self.reserved.deep_view() =~= pre_res.push(key.deep_view())) by {
                        assert(forall|m: int|
                            0 <= m < pre_res.len() ==> #[trigger] self.reserved.deep_view()[m]
                                == pre_res[m]);
                        assert(self.reserved.deep_view()[pre_res.len() as int]
                            == key.deep_view());
                    }
                    assert(self.reserved.deep_view().to_set() =~= pre_res.to_set().insert(
                        key.deep_view(),
                    )) by {
                        assert forall|k2: KeyV|
                            pre_res.to_set().insert(key.deep_view()).contains(
                                k2,
                            ) implies self.reserved.deep_view().to_set().contains(k2) by {
                            if k2 == key.deep_view() {
                                assert(self.reserved.deep_view()[pre_res.len() as int] == k2);
                            } else {
                                let m = choose|m: int|
                                    0 <= m < pre_res.len() && pre_res[m] == k2;
                                assert(self.reserved.deep_view()[m] == k2);
                            }
                        }
                    }
                }
            }
            proof {
                assert(keys.deep_view().take(i + 1).to_set() =~= keys.deep_view().take(
                    i as int,
                ).to_set().insert(keys.deep_view()[i as int])) by {
                    assert(keys.deep_view().take(i + 1) =~= keys.deep_view().take(i as int).push(
                        keys.deep_view()[i as int],
                    ));
                    assert forall|k2: KeyV|
                        keys.deep_view().take(i as int).to_set().insert(
                            keys.deep_view()[i as int],
                        ).contains(k2) implies keys.deep_view().take(i + 1).to_set().contains(
                        k2,
                    ) by {
                        if k2 == keys.deep_view()[i as int] {
                            assert(keys.deep_view().take(i + 1)[i as int] == k2);
                        } else {
                            let m = choose|m: int|
                                0 <= m < i && keys.deep_view().take(i as int)[m] == k2;
                            assert(keys.deep_view().take(i + 1)[m] == k2);
                        }
                    }
                }
                assert(keys.deep_view()[i as int] == keys[i as int].deep_view());
                assert(self.reserved_keys() =~= old(self).reserved_keys().union(
                    keys.deep_view().take(i + 1).to_set().intersect(old(self).utxos().dom()),
                ));
            }
            i = i + 1;
        }
        proof {
            assert(keys.deep_view().take(keys@.len() as int) =~= keys.deep_view());
        }
    }

    /// Every unspent output locked to an address, with its outpoint and
    /// value: one entry for each matching key of the map.
    pub fn get_utxos_by_address(&self, address: PublicKeyHash) -> (r: Vec<UTXO>)
        requires
            self.wf(),
        ensures
            forall|i: int|
                0 <= i < r@.len() ==> {
                    let u = #[trigger] r.deep_view()[i];
                    &&& self.utxos().contains_key((u.prev_tx_id, u.prev_out_idx))
                    &&& self.utxos()[(u.prev_tx_id, u.prev_out_idx)].script_pubkey
                        == (ScriptV::PayToPublicKeyHash { pub_key_hash: address@ })
                    &&& self.utxos()[(u.prev_tx_id, u.prev_out_idx)].value == u.value
                },
            forall|k: KeyV|
                #[trigger] self.utxos().contains_key(k) && self.utxos()[k].script_pubkey
                    == (ScriptV::PayToPublicKeyHash { pub_key_hash: address@ }) ==> exists|i: int|
                    0 <= i < r@.len() && ((#[trigger] r.deep_view()[i]).prev_tx_id,
                    r.deep_view()[i].prev_out_idx) == k,
            forall|i: int, j: int|
                0 <= i < j < r@.len() ==> ((#[trigger] r.deep_view()[i]).prev_tx_id,
                r.deep_view()[i].prev_out_idx) != ((#[trigger] r.deep_view()[j]).prev_tx_id,
                r.deep_view()[j].prev_out_idx),
    {
        let mut out: Vec<UTXO> = Vec::new();
        let mut i: usize = 0;
        while i < self.data.len()
            invariant
                i <= self.data@.len(),
                spec_uniq_keys(self.data.deep_view()),
                self.utxos() == spec_entries_map(self.data.deep_view()),
                forall|m: int|
                    0 <= m < out@.len() ==> {
                        let u = #[trigger] out.deep_view()[m];
                        &&& self.utxos().contains_key((u.prev_tx_id, u.prev_out_idx))
                        &&& self.utxos()[(u.prev_tx_id, u.prev_out_idx)].script_pubkey
                            == (ScriptV::PayToPublicKeyHash { pub_key_hash: address@ })
                        &&& self.utxos()[(u.prev_tx_id, u.prev_out_idx)].value == u.value
                    },
                forall|j: int|
                    0 <= j < i && (#[trigger] self.data.deep_view()[j]).1.script_pubkey
                        == (ScriptV::PayToPublicKeyHash { pub_key_hash: address@ })
                        ==> exists|m: int|
                        0 <= m < out@.len() && ((#[trigger] out.deep_view()[m]).prev_tx_id,
                        out.deep_view()[m].prev_out_idx) == self.data.deep_view()[j].0,
                forall|m: int|
                    0 <= m < out@.len() ==> exists|j: int|
                        0 <= j < i && ((#[trigger] out.deep_view()[m]).prev_tx_id,
                        out.deep_view()[m].prev_out_idx) == (#[trigger] self.data.deep_view()[
                            j
                        ]).0,
                forall|m1: int, m2: int|
                    0 <= m1 < m2 < out@.len() ==> ((#[trigger] out.deep_view()[m1]).prev_tx_id,
                    out.deep_view()[m1].prev_out_idx) != ((#[trigger] out.deep_view()[
                        m2
                    ]).prev_tx_id, out.deep_view()[m2].prev_out_idx),
            decreases self.data@.len() - i,
        {
            let entry = &self.data[i];
            let recipient = entry.1.get_address();
            if recipient == address {
                let ghost pre = out.deep_view();
                out.push(
                    UTXO {
                        prev_tx_id: entry.0.0.clone(),
                        prev_out_idx: entry.0.1,
                        value: entry.1.get_received_amount(),
                    },
                );
                proof {
                    assert(forall|m: int|
                        0 <= m < pre.len() ==> #[trigger] out.deep_view()[m] == pre[m]);
                    assert(out.deep_view()[pre.len() as int] == UTXOV {
                        prev_tx_id: self.data.deep_view()[i as int].0.0,
                        prev_out_idx: self.data.deep_view()[i as int].0.1,
                        value: self.data.deep_view()[i as int].1.value,
                    });
                    lemma_entries_map_index(self.data.deep_view(), i as int);
                    assert((
                        out.deep_view()[pre.len() as int].prev_tx_id,
                        out.deep_view()[pre.len() as int].prev_out_idx,
                    ) == self.data.deep_view()[i as int].0);
                    assert forall|j: int|
                        0 <= j < i + 1 && (#[trigger] self.data.deep_view()[j]).1.script_pubkey
                            == (ScriptV::PayToPublicKeyHash {
                            pub_key_hash: address@,
                        }) implies exists|m: int|
                        0 <= m < out@.len() && ((#[trigger] out.deep_view()[m]).prev_tx_id,
                        out.deep_view()[m].prev_out_idx) == self.data.deep_view()[j].0 by {
                        if j == i {
                            assert(0 <= pre.len() < out@.len() && ((#[trigger] out.deep_view()[
                                pre.len() as int
                            ]).prev_tx_id, out.deep_view()[pre.len() as int].prev_out_idx)
                                == self.data.deep_view()[j].0);
                        } else {
                            let m = choose|m: int|
                                0 <= m < pre.len() && ((#[trigger] pre[m]).prev_tx_id,
                                pre[m].prev_out_idx) == self.data.deep_view()[j].0;
                            assert(out.deep_view()[m] == pre[m]);
                            assert(0 <= m < out@.len() && ((#[trigger] out.deep_view()[
                                m
                            ]).prev_tx_id, out.deep_view()[m].prev_out_idx)
                                == self.data.deep_view()[j].0);
                        }
                    }
                    assert forall|m: int| 0 <= m < out@.len() implies exists|j: int|
                        0 <= j < i + 1 && ((#[trigger] out.deep_view()[m]).prev_tx_id,
                        out.deep_view()[m].prev_out_idx) == (#[trigger] self.data.deep_view()[
                            j
                        ]).0 by {
                        if m < pre.len() {
                            let j = choose|j: int|
                                0 <= j < i && ((#[trigger] pre[m]).prev_tx_id,
                                pre[m].prev_out_idx) == (#[trigger] self.data.deep_view()[j]).0;
                            assert(out.deep_view()[m] == pre[m]);
                            assert(((out.deep_view()[m]).prev_tx_id,
                            out.deep_view()[m].prev_out_idx) == self.data.deep_view()[j].0);
                        } else {
                            assert(((out.deep_view()[m]).prev_tx_id,
                            out.deep_view()[m].prev_out_idx) == self.data.deep_view()[i as int].0);
                        }
                    }
                    assert forall|m1: int, m2: int|
                        0 <= m1 < m2 < out@.len() implies ((#[trigger] out.deep_view()[
                        m1
                    ]).prev_tx_id, out.deep_view()[m1].prev_out_idx) != ((
                    #[trigger] out.deep_view()[m2]).prev_tx_id, out.deep_view()[
                        m2
                    ].prev_out_idx) by {
                        if m2 < pre.len() {
                        } else {
                            let j1 = choose|j1: int|
                                0 <= j1 < i && ((#[trigger] pre[m1]).prev_tx_id,
                                pre[m1].prev_out_idx) == (#[trigger] self.data.deep_view()[
                                    j1
                                ]).0;
                            assert(out.deep_view()[m1] == pre[m1]);
                            assert(self.data.deep_view()[j1].0 != self.data.deep_view()[
                                i as int
                            ].0);
                        }
                    }
                }
            } else {
                proof {
                    assert(self.data.deep_view()[i as int].1.script_pubkey
                        != (ScriptV::PayToPublicKeyHash { pub_key_hash: address@ }));
                }
            }
            i = i + 1;
        }
        proof {
            assert forall|k: KeyV|
                #[trigger] self.utxos().contains_key(k) && self.utxos()[k].script_pubkey
                    == (ScriptV::PayToPublicKeyHash { pub_key_hash: address@ }) implies exists|m: int|
                0 <= m < out@.len() && ((#[trigger] out.deep_view()[m]).prev_tx_id,
                out.deep_view()[m].prev_out_idx) == k by {
                lemma_entries_map_contains(self.data.deep_view(), k);
                let j = choose|j: int|
                    0 <= j < self.data.deep_view().len() && (#[trigger] self.data.deep_view()[
                        j
                    ]).0 == k;
                lemma_entries_map_index(self.data.deep_view(), j);
            }
        }
        out
    }
}

} // verus!
