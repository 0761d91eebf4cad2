//! Fixed-size node hashes. The distinguished all-zero hash stands for the
//! null revision: "no parent" for history entries and "full-text base" for
//! deltas.

use vstd::prelude::*;

verus! {

/// Number of bytes in a node hash.
pub const HASH_LEN: usize = 20;

/// A fixed-size content identifier.
pub struct NodeHash {
    pub bytes: Vec<u8>,
}

/// The byte sequence of the null hash: `HASH_LEN` zero bytes.
pub open spec fn null_hash_seq() -> Seq<u8> {
    Seq::new(HASH_LEN as nat, |i: int| 0u8)
}

impl View for NodeHash {
    type V = Seq<u8>;

    open spec fn view(&self) -> Seq<u8> {
        self.bytes@
    }
}

impl NodeHash {
    /// Well-formedness: exactly `HASH_LEN` bytes.
    pub open spec fn wf(&self) -> bool {
        self.bytes@.len() == HASH_LEN
    }

    /// Whether this is the null hash.
    pub open spec fn spec_is_null(&self) -> bool {
        self@ == null_hash_seq()
    }

    /// Builds a hash from exactly `HASH_LEN` bytes.
    pub fn from_bytes(bytes: Vec<u8>) -> (r: NodeHash)
        requires
            bytes@.len() == HASH_LEN,
        ensures
            r.wf(),
            r@ == bytes@,
    {
        NodeHash { bytes }
    }

    /// The null hash.
    pub fn null_hash() -> (r: NodeHash)
        ensures
            r.wf(),
            r.spec_is_null(),
    {
        let mut bytes: Vec<u8> = Vec::new();
        let mut i: usize = 0;
        while i < HASH_LEN
            invariant
                i <= HASH_LEN,
                bytes@.len() == i,
                forall|j: int| 0 <= j < i ==> bytes@[j] == 0u8,
            decreases HASH_LEN - i,
        {
            bytes.push(0u8);
            i = i + 1;
        }
        let r = NodeHash { bytes };
        proof {
            assert(r@ =~= null_hash_seq());
        }
        r
    }

    /// Whether this is the null hash.
    pub fn is_null(&self) -> (r: bool)
        requires
            self.wf(),
        ensures
            r == self.spec_is_null(),
    {
        let mut i: usize = 0;
        while i < HASH_LEN
            invariant
                self.wf(),
                i <= HASH_LEN,
                forall|j: int| 0 <= j < i ==> self@[j] == 0u8,
            decreases HASH_LEN - i,
        {
            if self.bytes[i] != 0u8 {
                proof {
                    assert(null_hash_seq()[i as int] == 0u8);
                }
                return false;
            }
            i = i + 1;
        }
        proof {
            assert(self@ =~= null_hash_seq());
        }
        true
    }

    /// Normalizes the null hash to `None`, any other hash to `Some`.
    pub fn into_option(self) -> (r: Option<NodeHash>)
        requires
            self.wf(),
        ensures
            self.spec_is_null() ==> r is None,
            !self.spec_is_null() ==> (r is Some && r->0 == self),
    {
        if self.is_null() {
            None
        } else {
            Some(self)
        }
    }
}

impl Clone for NodeHash {
    fn clone(&self) -> (r: Self)
        ensures
            r@ == self@,
    {
        let bytes = self.bytes.clone();
        proof {
            assert(bytes@ =~= self.bytes@);
        }
        NodeHash { bytes }
    }
}

impl PartialEq for NodeHash {
    fn eq(&self, other: &Self) -> (r: bool) {
        let r = self.bytes == other.bytes;
        proof {
            if self.bytes@ =~= other.bytes@ {
                assert(self.bytes@ == other.bytes@);
            }
        }
        r
    }
}

impl Eq for NodeHash {}

impl vstd::std_specs::cmp::PartialEqSpecImpl for NodeHash {
    open spec fn obeys_eq_spec() -> bool {
        true
    }

    open spec fn eq_spec(&self, other: &Self) -> bool {
        self@ == other@
    }
}

} // verus!
