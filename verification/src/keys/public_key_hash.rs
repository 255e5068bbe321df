use vstd::prelude::*;
use vstd::string::StringSliceAdditionalSpecFns;

verus! {

/// A 20-byte pay-to-public-key-hash address, derived from a compressed
/// public key as RIPEMD-160(SHA-256(key)).
#[derive(Debug)]
pub struct PublicKeyHash {
    bytes: Vec<u8>,
}

impl View for PublicKeyHash {
    type V = Seq<u8>;

    closed spec fn view(&self) -> Seq<u8> {
        self.bytes@
    }
}

impl DeepView for PublicKeyHash {
    type V = Seq<u8>;

    open spec fn deep_view(&self) -> Seq<u8> {
        self.view()
    }
}

impl Clone for PublicKeyHash {
    fn clone(&self) -> (r: Self)
        ensures
            r@ == self@,
    {
        proof {
            use_type_invariant(self);
        }
        let bytes = self.bytes.clone();
        assert(bytes@ =~= self.bytes@);
        PublicKeyHash { bytes }
    }
}

impl PartialEq for PublicKeyHash {
    fn eq(&self, other: &Self) -> (r: bool) {
        let r = self.bytes == other.bytes;
        proof {
            if self.bytes@ =~= other.bytes@ {
            }
        }
        r
    }
}

impl vstd::std_specs::cmp::PartialEqSpecImpl for PublicKeyHash {
    open spec fn obeys_eq_spec() -> bool {
        true
    }

    open spec fn eq_spec(&self, other: &Self) -> bool {
        self@ == other@
    }
}

impl Eq for PublicKeyHash {

}

impl PublicKeyHash {
    /// Every value of this type holds exactly 20 bytes; `use_type_invariant`
    /// makes the fact available wherever a value is in scope.
    #[verifier::type_invariant]
    pub open spec fn wf(self) -> bool {
        self@.len() == 20
    }

    pub fn new(bytes: Vec<u8>) -> (r: Self)
        requires
            bytes@.len() == 20,
        ensures
            r@ == bytes@,
    {
        PublicKeyHash { bytes }
    }

    pub fn from_slice(slice: &[u8]) -> (r: Result<Self, &'static str>)
        ensures
            r is Ok <==> slice@.len() == 20,
            r matches Ok(h) ==> h@ == slice@,
    {
        if slice.len() == 20 {
            Ok(PublicKeyHash { bytes: vstd::slice::slice_to_vec(slice) })
        } else {
            Err("Slice length must be 20 bytes for PublicKeyHash")
        }
    }

    /// Parses a 40-character hex string into an address.
    pub fn try_from_string(data: &str) -> (r: Result<Self, &'static str>)
        ensures
            r is Ok <==> (crate::hex_str::spec_hex_ok(data.spec_bytes())
                && data.spec_bytes().len() == 40),
            r matches Ok(h) ==> h@ == crate::hex_str::spec_hex_decode(data.spec_bytes()),
    {
        match crate::hex_str::hex_decode(data) {
            Some(bytes) => {
                if bytes.len() == 20 {
                    Ok(PublicKeyHash { bytes })
                } else {
                    Err("Incorrect hex string")
                }
            },
            None => Err("Incorrect hex string"),
        }
    }

    /// The address rendered as 40 lowercase hex characters.
    pub fn to_string_owned(&self) -> (r: String)
        ensures
            r@ == crate::hex_str::spec_hex_encode(self@),
    {
        crate::hex_str::hex_encode(self.bytes.as_slice())
    }

    pub fn as_ref(&self) -> (r: &[u8])
        ensures
            r@ == self@,
    {
        self.bytes.as_slice()
    }
}

} // verus!
