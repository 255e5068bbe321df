//! The persistent block store: an ordered, hash-indexed log of blocks. The
//! trait states what any store must do; `MemoryStorage` is a verified
//! in-memory implementation, and embedders may supply durable ones.

use vstd::prelude::*;

use crate::block::{Block, BlockV};
use crate::keys::blockchain_hash::spec_lex_le;
use crate::keys::BlockchainHash;

verus! {

/// Why a storage operation failed.
#[derive(Debug)]
pub enum StorageError {
    Backend(String),
    Serialization(String),
    Deserialization(String),
    BlockNotFound,
}

/// A block store. Its model is the height index (a map from height to
/// block view), and the latest-hash pointer. The hash index holds the same
/// blocks, so the model keys blocks by height alone and `load_block`
/// answers from it.
pub trait Storage: Sized {
    /// The blocks on store, keyed by height. An unverified implementation
    /// that keeps the default model is trusted only through its method
    /// contracts.
    open spec fn blocks(&self) -> Map<u64, BlockV> {
        Map::empty()
    }

    /// The latest-hash pointer, if one was written.
    open spec fn latest_hash(&self) -> Option<Seq<u8>> {
        None
    }


    /// Writes a block under both its height and its hash.
    fn save_block(&mut self, block: Block) -> (r: Result<Block, StorageError>)
        ensures
            r matches Ok(b) ==> {
                &&& b@ == block@
                &&& final(self).blocks() == old(self).blocks().insert(block@.height, block@)
                &&& final(self).latest_hash() == old(self).latest_hash()
            },
            r is Err ==> final(self).blocks() == old(self).blocks() && final(self).latest_hash()
                == old(self).latest_hash(),
    ;

    /// Reads a block back by its header hash.
    fn load_block(&self, hash: &BlockchainHash) -> (r: Result<Option<Block>, StorageError>)
        ensures
            r matches Ok(Some(b)) ==> self.blocks().contains_key(b@.height) && self.blocks()[
                b@.height
            ] == b@ && b@.hash == hash@,
            r matches Ok(None) ==> forall|h: u64|
                self.blocks().contains_key(h) ==> (#[trigger] self.blocks()[h]).hash != hash@,
    ;

    /// The block of greatest height, or `BlockNotFound` on an empty store.
    fn get_latest_block(&self) -> (r: Result<Block, StorageError>)
        ensures
            r matches Ok(b) ==> {
                &&& self.blocks().contains_key(b@.height)
                &&& self.blocks()[b@.height] == b@
                &&& forall|h: u64| self.blocks().contains_key(h) ==> h <= b@.height
            },
            r matches Err(e) && e is BlockNotFound ==> self.blocks().dom() == Set::<u64>::empty(),
            self.blocks().dom() == Set::<u64>::empty() && r is Err ==> (r matches Err(e)
                && e is BlockNotFound),
    ;

    /// Writes the latest-hash pointer.
    fn set_latest_block_hash(&mut self, hash: &BlockchainHash) -> (r: Result<(), StorageError>)
        ensures
            r is Ok ==> final(self).latest_hash() == Some(hash@) && final(self).blocks() == old(
                self,
            ).blocks(),
            r is Err ==> final(self).blocks() == old(self).blocks() && final(self).latest_hash()
                == old(self).latest_hash(),
    ;

    /// Reads the latest-hash pointer.
    fn get_latest_block_hash(&self) -> (r: Result<Option<Vec<u8>>, StorageError>)
        ensures
            r matches Ok(v) ==> v.deep_view() == self.latest_hash(),
    ;

    /// All blocks, in strictly increasing height order.
    fn stream_blocks_by_height(&self) -> (r: Result<Vec<Block>, StorageError>)
        ensures
            r matches Ok(v) ==> v@.len() == self.blocks().dom().len(),
            r matches Ok(v) ==> forall|i: int|
                0 <= i < v@.len() ==> self.blocks().contains_key(
                    (#[trigger] v.deep_view()[i]).height,
                ) && self.blocks()[v.deep_view()[i].height] == v.deep_view()[i],
            r matches Ok(v) ==> forall|i: int, j: int|
                0 <= i < j < v@.len() ==> (#[trigger] v.deep_view()[i]).height < (
                #[trigger] v.deep_view()[j]).height,
            r matches Ok(v) ==> spec_covers(self.blocks(), v.deep_view()),
    ;
}

/// One byte of the big-endian encoding of a height, most significant
/// first.
pub open spec fn spec_u64_be_byte(x: u64, i: int) -> u8 {
    ((x >> (((7 - i) * 8) as u64)) & 0xFF) as u8
}

/// The eight big-endian bytes of a height. Big-endian is what makes the
/// byte-lexicographic order of keys equal the numeric order of heights.
pub open spec fn spec_u64_to_be_bytes(x: u64) -> Seq<u8> {
    Seq::new(8, |i: int| spec_u64_be_byte(x, i))
}

/// The ASCII bytes of the height index's key prefix.
pub open spec fn spec_height_prefix() -> Seq<u8> {
    seq![104u8, 101u8, 105u8, 103u8, 104u8, 116u8, 95u8]
}

/// A height index key: the prefix, then the height in big-endian.
pub open spec fn spec_height_key(height: u64) -> Seq<u8> {
    spec_height_prefix() + spec_u64_to_be_bytes(height)
}

/// The ASCII bytes of the hash index's key prefix.
pub open spec fn spec_hash_prefix() -> Seq<u8> {
    seq![104u8, 97u8, 115u8, 104u8, 95u8]
}

/// A hash index key: the prefix, then the 32 hash bytes.
pub open spec fn spec_hash_key(hash: Seq<u8>) -> Seq<u8> {
    spec_hash_prefix() + hash
}

/// The 15-byte height index key for a durable store.
pub fn format_height_key(height: u64) -> (r: Vec<u8>)
    ensures
        r@ == spec_height_key(height),
        r@.len() == 15,
{
    let mut key: Vec<u8> = vec![104u8, 101u8, 105u8, 103u8, 104u8, 116u8, 95u8];
    assert(key@ =~= spec_height_prefix());
    let mut i: usize = 0;
    while i < 8
        invariant
            i <= 8,
            key@.len() == 7 + i,
            key@ =~= spec_height_prefix() + spec_u64_to_be_bytes(height).take(i as int),
        decreases 8 - i,
    {
        let shift: u64 = ((7 - i) * 8) as u64;
        let byte_wide: u64 = (height >> shift) & 0xFF;
        assert(byte_wide < 256) by (bit_vector)
            requires
                byte_wide == (height >> shift) & 0xFF,
        ;
        key.push(byte_wide as u8);
        proof {
            assert(key@.last() == spec_u64_be_byte(height, i as int));
            assert(key@ =~= spec_height_prefix() + spec_u64_to_be_bytes(height).take(i + 1));
        }
        i = i + 1;
    }
    proof {
        assert(spec_u64_to_be_bytes(height).take(8) =~= spec_u64_to_be_bytes(height));
        assert(key@ =~= spec_height_key(height));
    }
    key
}

/// The 37-byte hash index key for a durable store.
pub fn format_hash_key(hash: &BlockchainHash) -> (r: Vec<u8>)
    ensures
        r@ == spec_hash_key(hash@),
        r@.len() == 37,
{
    proof {
        use_type_invariant(hash);
    }
    let mut key: Vec<u8> = vec![104u8, 97u8, 115u8, 104u8, 95u8];
    assert(key@ =~= spec_hash_prefix());
    let mut bytes = vstd::slice::slice_to_vec(hash.as_ref());
    key.append(&mut bytes);
    assert(key@ =~= spec_hash_key(hash@));
    key
}

/// Sharing a prefix does not disturb lexicographic order.
proof fn lemma_lex_le_common_prefix(p: Seq<u8>, a: Seq<u8>, b: Seq<u8>)
    ensures
        spec_lex_le(p + a, p + b) == spec_lex_le(a, b),
    decreases p.len(),
{
    if p.len() == 0 {
        assert(p + a =~= a);
        assert(p + b =~= b);
    } else {
        assert((p + a)[0] == p[0]);
        assert((p + b)[0] == p[0]);
        assert((p + a).skip(1) =~= p.skip(1) + a);
        assert((p + b).skip(1) =~= p.skip(1) + b);
        lemma_lex_le_common_prefix(p.skip(1), a, b);
    }
}

/// A first strictly smaller byte, after a common run, decides the
/// lexicographic comparison.
proof fn lemma_lex_le_first_diff(a: Seq<u8>, b: Seq<u8>, k: int)
    requires
        a.len() == b.len(),
        0 <= k < a.len(),
        forall|j: int| 0 <= j < k ==> a[j] == b[j],
        a[k] < b[k],
    ensures
        spec_lex_le(a, b),
        !spec_lex_le(b, a),
    decreases k,
{
    if k == 0 {
    } else {
        assert(a[0] == b[0]);
        assert(a.skip(1).len() == b.skip(1).len());
        assert(forall|j: int| 0 <= j < k - 1 ==> a.skip(1)[j] == b.skip(1)[j]);
        assert(a.skip(1)[k - 1] == a[k]);
        assert(b.skip(1)[k - 1] == b[k]);
        lemma_lex_le_first_diff(a.skip(1), b.skip(1), k - 1);
    }
}

/// The byte-lexicographic order of height keys is the numeric order of
/// heights, so a forward scan of the height index walks the chain in
/// order and a reverse scan finds its tip.
pub proof fn lemma_height_key_order(h1: u64, h2: u64)
    requires
        h1 < h2,
    ensures
        spec_lex_le(spec_height_key(h1), spec_height_key(h2)),
        !spec_lex_le(spec_height_key(h2), spec_height_key(h1)),
{
    let a = spec_u64_to_be_bytes(h1);
    let b = spec_u64_to_be_bytes(h2);
    assert((((h1 >> 56) & 0xFF) < ((h2 >> 56) & 0xFF)) || (((h1 >> 56) & 0xFF) == ((h2 >> 56) & 0xFF) && ((h1 >> 48) & 0xFF) < ((h2 >> 48) & 0xFF)) || (((h1 >> 56) & 0xFF) == ((h2 >> 56) & 0xFF) && ((h1 >> 48) & 0xFF) == ((h2 >> 48) & 0xFF) && ((h1 >> 40) & 0xFF) < ((h2 >> 40) & 0xFF)) || (((h1 >> 56) & 0xFF) == ((h2 >> 56) & 0xFF) && ((h1 >> 48) & 0xFF) == ((h2 >> 48) & 0xFF) && ((h1 >> 40) & 0xFF) == ((h2 >> 40) & 0xFF) && ((h1 >> 32) & 0xFF) < ((h2 >> 32) & 0xFF)) || (((h1 >> 56) & 0xFF) == ((h2 >> 56) & 0xFF) && ((h1 >> 48) & 0xFF) == ((h2 >> 48) & 0xFF) && ((h1 >> 40) & 0xFF) == ((h2 >> 40) & 0xFF) && ((h1 >> 32) & 0xFF) == ((h2 >> 32) & 0xFF) && ((h1 >> 24) & 0xFF) < ((h2 >> 24) & 0xFF)) || (((h1 >> 56) & 0xFF) == ((h2 >> 56) & 0xFF) && ((h1 >> 48) & 0xFF) == ((h2 >> 48) & 0xFF) && ((h1 >> 40) & 0xFF) == ((h2 >> 40) & 0xFF) && ((h1 >> 32) & 0xFF) == ((h2 >> 32) & 0xFF) && ((h1 >> 24) & 0xFF) == ((h2 >> 24) & 0xFF) && ((h1 >> 16) & 0xFF) < ((h2 >> 16) & 0xFF)) || (((h1 >> 56) & 0xFF) == ((h2 >> 56) & 0xFF) && ((h1 >> 48) & 0xFF) == ((h2 >> 48) & 0xFF) && ((h1 >> 40) & 0xFF) == ((h2 >> 40) & 0xFF) && ((h1 >> 32) & 0xFF) == ((h2 >> 32) & 0xFF) && ((h1 >> 24) & 0xFF) == ((h2 >> 24) & 0xFF) && ((h1 >> 16) & 0xFF) == ((h2 >> 16) & 0xFF) && ((h1 >> 8) & 0xFF) < ((h2 >> 8) & 0xFF)) || (((h1 >> 56) & 0xFF) == ((h2 >> 56) & 0xFF) && ((h1 >> 48) & 0xFF) == ((h2 >> 48) & 0xFF) && ((h1 >> 40) & 0xFF) == ((h2 >> 40) & 0xFF) && ((h1 >> 32) & 0xFF) == ((h2 >> 32) & 0xFF) && ((h1 >> 24) & 0xFF) == ((h2 >> 24) & 0xFF) && ((h1 >> 16) & 0xFF) == ((h2 >> 16) & 0xFF) && ((h1 >> 8) & 0xFF) == ((h2 >> 8) & 0xFF) && (h1 & 0xFF) < (h2 & 0xFF))) by (bit_vector)
        requires
            h1 < h2,
    ;
    assert(a[0] == ((h1 >> 56) & 0xFF) as u8 && b[0] == ((h2 >> 56) & 0xFF) as u8);
    assert(a[1] == ((h1 >> 48) & 0xFF) as u8 && b[1] == ((h2 >> 48) & 0xFF) as u8);
    assert(a[2] == ((h1 >> 40) & 0xFF) as u8 && b[2] == ((h2 >> 40) & 0xFF) as u8);
    assert(a[3] == ((h1 >> 32) & 0xFF) as u8 && b[3] == ((h2 >> 32) & 0xFF) as u8);
    assert(a[4] == ((h1 >> 24) & 0xFF) as u8 && b[4] == ((h2 >> 24) & 0xFF) as u8);
    assert(a[5] == ((h1 >> 16) & 0xFF) as u8 && b[5] == ((h2 >> 16) & 0xFF) as u8);
    assert(a[6] == ((h1 >> 8) & 0xFF) as u8 && b[6] == ((h2 >> 8) & 0xFF) as u8);
    assert(((h1 >> 56) & 0xFF) < 256 && ((h1 >> 48) & 0xFF) < 256 && ((h1 >> 40) & 0xFF) < 256 && ((h1 >> 32) & 0xFF) < 256 && ((h1 >> 24) & 0xFF) < 256 && ((h1 >> 16) & 0xFF) < 256 && ((h1 >> 8) & 0xFF) < 256 && (h1 & 0xFF) < 256) by (bit_vector);
    assert(((h2 >> 56) & 0xFF) < 256 && ((h2 >> 48) & 0xFF) < 256 && ((h2 >> 40) & 0xFF) < 256 && ((h2 >> 32) & 0xFF) < 256 && ((h2 >> 24) & 0xFF) < 256 && ((h2 >> 16) & 0xFF) < 256 && ((h2 >> 8) & 0xFF) < 256 && (h2 & 0xFF) < 256) by (bit_vector);
    assert(h1 >> 0u64 == h1) by (bit_vector);
    assert(h2 >> 0u64 == h2) by (bit_vector);
    assert(a[7] == (h1 & 0xFF) as u8 && b[7] == (h2 & 0xFF) as u8);
    if a[0] < b[0] {
        lemma_lex_le_first_diff(a, b, 0);
    } else if a[1] < b[1] && a[0] == b[0] {
        lemma_lex_le_first_diff(a, b, 1);
    } else if a[2] < b[2] && a[0] == b[0] && a[1] == b[1] {
        lemma_lex_le_first_diff(a, b, 2);
    } else if a[3] < b[3] && a[0] == b[0] && a[1] == b[1] && a[2] == b[2] {
        lemma_lex_le_first_diff(a, b, 3);
    } else if a[4] < b[4] && a[0] == b[0] && a[1] == b[1] && a[2] == b[2] && a[3] == b[3] {
        lemma_lex_le_first_diff(a, b, 4);
    } else if a[5] < b[5] && a[0] == b[0] && a[1] == b[1] && a[2] == b[2] && a[3] == b[3] && a[4]
        == b[4] {
        lemma_lex_le_first_diff(a, b, 5);
    } else if a[6] < b[6] && a[0] == b[0] && a[1] == b[1] && a[2] == b[2] && a[3] == b[3] && a[4]
        == b[4] && a[5] == b[5] {
        lemma_lex_le_first_diff(a, b, 6);
    } else {
        assert(a[7] < b[7] && a[0] == b[0] && a[1] == b[1] && a[2] == b[2] && a[3] == b[3] && a[4]
            == b[4] && a[5] == b[5] && a[6] == b[6]);
        lemma_lex_le_first_diff(a, b, 7);
    }
    lemma_lex_le_common_prefix(spec_height_prefix(), a, b);
    lemma_lex_le_common_prefix(spec_height_prefix(), b, a);
}

/// Every key of the map appears as a height somewhere in the list.
pub open spec fn spec_covers(m: Map<u64, BlockV>, s: Seq<BlockV>) -> bool {
    forall|h: u64|
        m.contains_key(h) ==> exists|i: int| 0 <= i < s.len() && (#[trigger] s[i]).height == h
}

/// The map a height-sorted block list denotes.
pub open spec fn spec_height_map(s: Seq<BlockV>) -> Map<u64, BlockV>
    decreases s.len(),
{
    if s.len() == 0 {
        Map::empty()
    } else {
        spec_height_map(s.drop_last()).insert(s.last().height, s.last())
    }
}

/// Heights strictly increase along the list.
pub open spec fn spec_sorted_heights(s: Seq<BlockV>) -> bool {
    forall|i: int, j: int| 0 <= i < j < s.len() ==> (#[trigger] s[i]).height < (#[trigger] s[j]).height
}

pub proof fn lemma_height_map_contains(s: Seq<BlockV>, h: u64)
    ensures
        spec_height_map(s).contains_key(h) <==> exists|i: int|
            0 <= i < s.len() && (#[trigger] s[i]).height == h,
    decreases s.len(),
{
    if s.len() > 0 {
        lemma_height_map_contains(s.drop_last(), h);
        if s.last().height == h {
            assert(s[s.len() - 1].height == h);
        } else {
            if spec_height_map(s).contains_key(h) {
                let i = choose|i: int|
                    0 <= i < s.drop_last().len() && (#[trigger] s.drop_last()[i]).height == h;
                assert(s[i].height == h);
            }
            if exists|i: int| 0 <= i < s.len() && (#[trigger] s[i]).height == h {
                let i = choose|i: int| 0 <= i < s.len() && (#[trigger] s[i]).height == h;
                assert(i < s.len() - 1);
                assert(s.drop_last()[i].height == h);
            }
        }
    }
}

pub proof fn lemma_height_map_index(s: Seq<BlockV>, i: int)
    requires
        spec_sorted_heights(s),
        0 <= i < s.len(),
    ensures
        spec_height_map(s).contains_key(s[i].height),
        spec_height_map(s)[s[i].height] == s[i],
    decreases s.len(),
{
    if i == s.len() - 1 {
        assert(spec_height_map(s) == spec_height_map(s.drop_last()).insert(
            s.last().height,
            s.last(),
        ));
    } else {
        assert(spec_sorted_heights(s.drop_last())) by {
            assert(forall|a: int|
                0 <= a < s.drop_last().len() ==> #[trigger] s.drop_last()[a] == s[a]);
        }
        assert(s.drop_last()[i] == s[i]);
        lemma_height_map_index(s.drop_last(), i);
        assert(s[i].height != s.last().height);
    }
}

pub proof fn lemma_height_map_finite(s: Seq<BlockV>)
    ensures
        spec_height_map(s).dom().finite(),
        spec_height_map(s).dom().len() <= s.len(),
    decreases s.len(),
{
    if s.len() == 0 {
        assert(spec_height_map(s).dom() =~= Set::<u64>::empty());
    } else {
        lemma_height_map_finite(s.drop_last());
        assert(spec_height_map(s).dom() =~= spec_height_map(s.drop_last()).dom().insert(
            s.last().height,
        ));
        vstd::set_lib::lemma_len_union::<u64>(
            spec_height_map(s.drop_last()).dom(),
            Set::<u64>::empty().insert(s.last().height),
        );
        assert(spec_height_map(s.drop_last()).dom().union(
            Set::<u64>::empty().insert(s.last().height),
        ) =~= spec_height_map(s).dom());
    }
}

pub proof fn lemma_height_map_len(s: Seq<BlockV>)
    requires
        spec_sorted_heights(s),
    ensures
        spec_height_map(s).dom().finite(),
        spec_height_map(s).dom().len() == s.len(),
    decreases s.len(),
{
    if s.len() == 0 {
        assert(spec_height_map(s).dom() =~= Set::<u64>::empty());
    } else {
        assert(spec_sorted_heights(s.drop_last())) by {
            assert(forall|a: int|
                0 <= a < s.drop_last().len() ==> #[trigger] s.drop_last()[a] == s[a]);
        }
        lemma_height_map_len(s.drop_last());
        lemma_height_map_contains(s.drop_last(), s.last().height);
        assert(forall|a: int|
            0 <= a < s.drop_last().len() ==> (#[trigger] s.drop_last()[a]).height
                != s.last().height);
        assert(!spec_height_map(s.drop_last()).dom().contains(s.last().height));
        assert(spec_height_map(s).dom() =~= spec_height_map(s.drop_last()).dom().insert(
            s.last().height,
        ));
    }
}

/// A verified, volatile block store: blocks kept in height order in
/// memory. It backs tests and any embedding that does not need
/// durability.
pub struct MemoryStorage {
    blocks: Vec<Block>,
    latest: Option<BlockchainHash>,
}

impl MemoryStorage {
    #[verifier::type_invariant]
    closed spec fn inv(self) -> bool {
        spec_sorted_heights(self.blocks.deep_view())
    }

    pub fn new() -> (r: Self)
        ensures
            r.blocks() == Map::<u64, BlockV>::empty(),
            r.latest_hash() == Option::<Seq<u8>>::None,
    {
        let r = MemoryStorage { blocks: Vec::new(), latest: None };
        proof {
            assert(r.blocks.deep_view() =~= Seq::<BlockV>::empty());
        }
        r
    }
}

impl Storage for MemoryStorage {
    closed spec fn blocks(&self) -> Map<u64, BlockV> {
        spec_height_map(self.blocks.deep_view())
    }

    closed spec fn latest_hash(&self) -> Option<Seq<u8>> {
        match self.latest {
            Some(h) => Some(h@),
            None => None,
        }
    }

    /// Accepts a block that extends the chain (or rewrites its last
    /// block); an out-of-order height is refused and changes nothing.
    fn save_block(&mut self, block: Block) -> (r: Result<Block, StorageError>) {
        proof {
            use_type_invariant(&*self);
        }
        let ghost pre = self.blocks.deep_view();
        let n = self.blocks.len();
        if n == 0 || self.blocks[n - 1].height < block.height {
            let copy = block.clone();
            let mut blocks: Vec<Block> = Vec::new();
            std::mem::swap(&mut blocks, &mut self.blocks);
            proof {
                assert(blocks.deep_view() == pre);
                assert(self.blocks.deep_view() =~= Seq::<BlockV>::empty());
            }
            blocks.push(block);
            proof {
                assert(blocks.deep_view() =~= pre.push(copy@)) by {
                    assert(forall|m: int|
                        0 <= m < pre.len() ==> #[trigger] blocks.deep_view()[m] == pre[m]);
                    assert(blocks.deep_view()[pre.len() as int] == copy@);
                }
                assert(spec_sorted_heights(blocks.deep_view())) by {
                    assert forall|m: int| 0 <= m < pre.len() implies (#[trigger] pre[m]).height
                        < copy@.height by {
                        if m < pre.len() - 1 {
                            assert(pre[m].height < pre[pre.len() - 1].height);
                        }
                    }
                }
                assert(blocks.deep_view().drop_last() =~= pre);
            }
            self.blocks = blocks;
            proof {
                assert(final(self).blocks() == old(self).blocks().insert(copy@.height, copy@));
            }
            Ok(copy)
        } else if self.blocks[n - 1].height == block.height {
            let copy = block.clone();
            let mut blocks: Vec<Block> = Vec::new();
            std::mem::swap(&mut blocks, &mut self.blocks);
            proof {
                assert(blocks.deep_view() == pre);
                assert(self.blocks.deep_view() =~= Seq::<BlockV>::empty());
            }
            blocks.pop();
            proof {
                assert(blocks.deep_view() =~= pre.drop_last()) by {
                    assert(forall|m: int|
                        0 <= m < pre.len() - 1 ==> #[trigger] blocks.deep_view()[m] == pre[m]);
                }
            }
            let ghost mid = blocks.deep_view();
            blocks.push(block);
            proof {
                assert(blocks.deep_view() =~= mid.push(copy@)) by {
                    assert(forall|m: int|
                        0 <= m < mid.len() ==> #[trigger] blocks.deep_view()[m] == mid[m]);
                    assert(blocks.deep_view()[mid.len() as int] == copy@);
                }
                assert(spec_sorted_heights(blocks.deep_view())) by {
                    assert forall|m: int| 0 <= m < mid.len() implies (#[trigger] mid[m]).height
                        < copy@.height by {
                        assert(mid[m] == pre[m]);
                        assert(pre[m].height < pre[pre.len() - 1].height);
                    }
                }
                assert(blocks.deep_view().drop_last() =~= mid);
            }
            self.blocks = blocks;
            proof {
                assert(pre.drop_last() =~= mid);
                assert(final(self).blocks() =~= old(self).blocks().insert(copy@.height, copy@));
            }
            Ok(copy)
        } else {
            Err(StorageError::Backend("out-of-order block write".to_string()))
        }
    }

    fn load_block(&self, hash: &BlockchainHash) -> (r: Result<Option<Block>, StorageError>) {
        proof {
            use_type_invariant(self);
        }
        let mut i: usize = 0;
        while i < self.blocks.len()
            invariant
                i <= self.blocks@.len(),
                spec_sorted_heights(self.blocks.deep_view()),
                forall|j: int|
                    0 <= j < i ==> (#[trigger] self.blocks.deep_view()[j]).hash != hash@,
            decreases self.blocks@.len() - i,
        {
            if self.blocks[i].hash == *hash {
                let b = self.blocks[i].clone();
                proof {
                    lemma_height_map_index(self.blocks.deep_view(), i as int);
                }
                return Ok(Some(b));
            }
            proof {
                assert(self.blocks.deep_view()[i as int].hash != hash@);
            }
            i = i + 1;
        }
        proof {
            assert forall|h: u64| self.blocks().contains_key(h) implies (
            #[trigger] self.blocks()[h]).hash != hash@ by {
                lemma_height_map_contains(self.blocks.deep_view(), h);
                let j = choose|j: int|
                    0 <= j < self.blocks.deep_view().len() && (#[trigger] self.blocks.deep_view()[
                        j
                    ]).height == h;
                lemma_height_map_index(self.blocks.deep_view(), j);
            }
        }
        Ok(None)
    }

    fn get_latest_block(&self) -> (r: Result<Block, StorageError>) {
        proof {
            use_type_invariant(self);
        }
        let n = self.blocks.len();
        if n == 0 {
            proof {
                lemma_height_map_contains(self.blocks.deep_view(), 0);
                assert forall|h: u64| !self.blocks().contains_key(h) by {
                    lemma_height_map_contains(self.blocks.deep_view(), h);
                }
                assert(self.blocks().dom() =~= Set::<u64>::empty());
            }
            return Err(StorageError::BlockNotFound);
        }
        let b = self.blocks[n - 1].clone();
        proof {
            lemma_height_map_index(self.blocks.deep_view(), n - 1);
            assert forall|h: u64| self.blocks().contains_key(h) implies h <= b@.height by {
                lemma_height_map_contains(self.blocks.deep_view(), h);
                let j = choose|j: int|
                    0 <= j < self.blocks.deep_view().len() && (#[trigger] self.blocks.deep_view()[
                        j
                    ]).height == h;
                if j < n - 1 {
                    assert(self.blocks.deep_view()[j].height < self.blocks.deep_view()[
                        n - 1
                    ].height);
                }
            }
        }
        Ok(b)
    }

    fn set_latest_block_hash(&mut self, hash: &BlockchainHash) -> (r: Result<(), StorageError>) {
        proof {
            use_type_invariant(&*self);
        }
        self.latest = Some(hash.clone());
        Ok(())
    }

    fn get_latest_block_hash(&self) -> (r: Result<Option<Vec<u8>>, StorageError>) {
        match &self.latest {
            Some(h) => {
                let v = vstd::slice::slice_to_vec(h.as_ref());
                proof {
                    assert(Some(v).deep_view() =~= self.latest_hash()) by {
                        assert(v.deep_view() =~= v@);
                    }
                }
                Ok(Some(v))
            },
            None => Ok(None),
        }
    }

    #[verifier::rlimit(50)]
    fn stream_blocks_by_height(&self) -> (r: Result<Vec<Block>, StorageError>) {
        proof {
            use_type_invariant(self);
            lemma_height_map_len(self.blocks.deep_view());
        }
        let mut out: Vec<Block> = Vec::new();
        let mut i: usize = 0;
        while i < self.blocks.len()
            invariant
                i <= self.blocks@.len(),
                out.deep_view() =~= self.blocks.deep_view().take(i as int),
            decreases self.blocks@.len() - i,
        {
            let b = self.blocks[i].clone();
            proof {
                assert(out.deep_view().len() == out@.len());
                assert(self.blocks.deep_view().take(i as int).len() == i as int);
            }
            let ghost pre = out.deep_view();
            out.push(b);
            proof {
                assert(forall|m: int| 0 <= m < pre.len() ==> #[trigger] out.deep_view()[m]
                    == pre[m]);
                assert(out.deep_view()[pre.len() as int] == self.blocks.deep_view()[i as int]);
                assert(out.deep_view() =~= self.blocks.deep_view().take(i + 1));
            }
            i = i + 1;
        }
        proof {
            assert(self.blocks.deep_view().take(self.blocks@.len() as int)
                =~= self.blocks.deep_view());
            assert(out.deep_view() == self.blocks.deep_view());
            assert(out@.len() == out.deep_view().len());
            assert(out@.len() == self.blocks().dom().len());
            assert(spec_sorted_heights(out.deep_view()));
            assert forall|j: int| 0 <= j < out@.len() implies self.blocks().contains_key(
                (#[trigger] out.deep_view()[j]).height,
            ) && self.blocks()[out.deep_view()[j].height] == out.deep_view()[j] by {
                lemma_height_map_index(self.blocks.deep_view(), j);
            }
            assert(spec_covers(self.blocks(), out.deep_view())) by {
                assert forall|h: u64| self.blocks().contains_key(h) implies exists|j: int|
                    0 <= j < out.deep_view().len() && (#[trigger] out.deep_view()[j]).height
                        == h by {
                    lemma_height_map_contains(self.blocks.deep_view(), h);
                    let w = choose|w: int|
                        0 <= w < self.blocks.deep_view().len() && (
                        #[trigger] self.blocks.deep_view()[w]).height == h;
                    assert(0 <= w < out.deep_view().len() && out.deep_view()[w].height == h);
                }
            }
        }
        Ok(out)
    }
}

} // verus!
