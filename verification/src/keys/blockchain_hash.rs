use vstd::prelude::*;

verus! {

/// The sequence of 32 zero bytes: the sentinel for "no previous block" and
/// for the coinbase null input.
pub open spec fn spec_zero_hash() -> Seq<u8> {
    Seq::new(32, |i: int| 0u8)
}

/// Lexicographic (big-endian byte compare) "less than or equal" on two byte
/// sequences of equal length; this is the order used for difficulty checks.
pub open spec fn spec_lex_le(a: Seq<u8>, b: Seq<u8>) -> bool
    decreases a.len(),
{
    if a.len() == 0 {
        true
    } else if a[0] < b[0] {
        true
    } else if a[0] > b[0] {
        false
    } else {
        spec_lex_le(a.skip(1), b.skip(1))
    }
}

/// A 32-byte hash identifying chain data: block headers and transactions.
#[derive(Debug)]
pub struct BlockchainHash {
    bytes: Vec<u8>,
}

impl View for BlockchainHash {
    type V = Seq<u8>;

    closed spec fn view(&self) -> Seq<u8> {
        self.bytes@
    }
}

impl DeepView for BlockchainHash {
    type V = Seq<u8>;

    open spec fn deep_view(&self) -> Seq<u8> {
        self.view()
    }
}

impl Clone for BlockchainHash {
    fn clone(&self) -> (r: Self)
        ensures
            r@ == self@,
    {
        proof {
            use_type_invariant(self);
        }
        let bytes = self.bytes.clone();
        assert(bytes@ =~= self.bytes@);
        BlockchainHash { bytes }
    }
}

impl PartialEq for BlockchainHash {
    fn eq(&self, other: &Self) -> (r: bool) {
        let r = self.bytes == other.bytes;
        proof {
            if self.bytes@ =~= other.bytes@ {
            }
        }
        r
    }
}

impl vstd::std_specs::cmp::PartialEqSpecImpl for BlockchainHash {
    open spec fn obeys_eq_spec() -> bool {
        true
    }

    open spec fn eq_spec(&self, other: &Self) -> bool {
        self@ == other@
    }
}

impl Eq for BlockchainHash {

}

impl BlockchainHash {
    /// Every value of this type holds exactly 32 bytes; `use_type_invariant`
    /// makes the fact available wherever a value is in scope.
    #[verifier::type_invariant]
    pub open spec fn wf(self) -> bool {
        self@.len() == 32
    }

    pub fn new(bytes: Vec<u8>) -> (r: Self)
        requires
            bytes@.len() == 32,
        ensures
            r@ == bytes@,
    {
        BlockchainHash { bytes }
    }

    pub fn from_slice(slice: &[u8]) -> (r: Result<Self, &'static str>)
        ensures
            r is Ok <==> slice@.len() == 32,
            r matches Ok(h) ==> h@ == slice@,
    {
        if slice.len() == 32 {
            Ok(BlockchainHash { bytes: vstd::slice::slice_to_vec(slice) })
        } else {
            Err("Slice length must be 32 bytes for Hash")
        }
    }

    pub fn as_ref(&self) -> (r: &[u8])
        ensures
            r@ == self@,
    {
        self.bytes.as_slice()
    }

    pub fn default() -> (r: Self)
        ensures
            r@ == spec_zero_hash(),
    {
        let bytes: Vec<u8> = vec![0u8; 32];
        assert(bytes@ =~= spec_zero_hash());
        BlockchainHash { bytes }
    }

    pub fn is_zero_hash(&self) -> (r: bool)
        ensures
            r == (self@ == spec_zero_hash()),
    {
        proof {
            use_type_invariant(self);
        }
        let zero: Vec<u8> = vec![0u8; 32];
        assert(zero@ =~= spec_zero_hash());
        let r = self.bytes == zero;
        proof {
            if r {
                assert(self.bytes@ =~= zero@);
            }
            if self@ == spec_zero_hash() {
                assert(self.bytes@ =~= zero@);
            }
        }
        r
    }

    /// The hash rendered as 64 lowercase hex characters.
    pub fn to_string_owned(&self) -> (r: String)
        ensures
            r@ == crate::hex_str::spec_hex_encode(self@),
    {
        crate::hex_str::hex_encode(self.bytes.as_slice())
    }

    /// Lexicographic comparison against another hash, used to test a header
    /// hash against a difficulty target.
    pub fn le(&self, other: &Self) -> (r: bool)
        ensures
            r == spec_lex_le(self@, other@),
    {
        proof {
            use_type_invariant(self);
            use_type_invariant(other);
        }
        let mut i: usize = 0;
        assert(self@.skip(0) =~= self@);
        assert(other@.skip(0) =~= other@);
        loop
            invariant
                i <= 32,
                self@.len() == 32,
                other@.len() == 32,
                spec_lex_le(self@, other@) == spec_lex_le(self@.skip(i as int), other@.skip(i as int)),
                forall|j: int| 0 <= j < i ==> self@[j] == other@[j],
            decreases 32 - i,
        {
            if i == 32 {
                assert(self@.skip(32).len() == 0);
                return true;
            }
            let a = self.bytes[i];
            let b = other.bytes[i];
            proof {
                assert(self@.skip(i as int)[0] == self@[i as int]);
                assert(other@.skip(i as int)[0] == other@[i as int]);
                assert(self@.skip(i as int).skip(1) =~= self@.skip(i + 1));
                assert(other@.skip(i as int).skip(1) =~= other@.skip(i + 1));
            }
            if a < b {
                return true;
            }
            if a > b {
                return false;
            }
            i = i + 1;
        }
    }
}

} // verus!
