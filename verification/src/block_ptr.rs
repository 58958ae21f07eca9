//! Chain-agnostic block identity.

use vstd::prelude::*;

verus! {

/// Length, in bytes, of every block hash.
pub const HASH_LENGTH: usize = 32;

/// The mathematical value of a [`BlockPtr`]: a height and a hash.
#[verifier::ext_equal]
pub struct BlockPtrView {
    pub number: u64,
    pub hash: Seq<u8>,
}

impl BlockPtrView {
    /// A well-formed identity carries a hash of the fixed length.
    pub open spec fn wf(self) -> bool {
        self.hash.len() == HASH_LENGTH
    }
}

/// Minimal chain-agnostic block reference: height plus hash. Immutable once
/// constructed; identity is the pair `(number, hash)` and equality is
/// structural.
pub struct BlockPtr {
    number: u64,
    hash: Vec<u8>,
}

impl View for BlockPtr {
    type V = BlockPtrView;

    closed spec fn view(&self) -> BlockPtrView {
        BlockPtrView { number: self.number, hash: self.hash@ }
    }
}

/// Byte-for-byte copy of a byte vector.
pub fn copy_bytes(v: &Vec<u8>) -> (r: Vec<u8>)
    ensures
        r@ == v@,
{
    let mut r: Vec<u8> = Vec::new();
    let mut i: usize = 0;
    while i < v.len()
        invariant
            i <= v@.len(),
            r@ =~= v@.subrange(0, i as int),
        decreases v@.len() - i,
    {
        r.push(v[i]);
        proof {
            assert(v@.subrange(0, i + 1) =~= v@.subrange(0, i as int).push(v@[i as int]));
        }
        i = i + 1;
    }
    proof {
        assert(v@.subrange(0, v@.len() as int) =~= v@);
    }
    r
}

/// Byte-for-byte equality of two byte vectors.
pub fn bytes_eq(a: &Vec<u8>, b: &Vec<u8>) -> (r: bool)
    ensures
        r == (a@ == b@),
{
    if a.len() != b.len() {
        return false;
    }
    let mut i: usize = 0;
    while i < a.len()
        invariant
            i <= a@.len(),
            a@.len() == b@.len(),
            forall|k: int| 0 <= k < i ==> a@[k] == b@[k],
        decreases a@.len() - i,
    {
        if a[i] != b[i] {
            return false;
        }
        i = i + 1;
    }
    proof {
        assert(a@ =~= b@);
    }
    true
}

impl BlockPtr {
    /// Builds an identity; rejects a hash that is not exactly
    /// [`HASH_LENGTH`] bytes.
    pub fn new(number: u64, hash: Vec<u8>) -> (r: Option<BlockPtr>)
        ensures
            hash@.len() == HASH_LENGTH ==> (r matches Some(p) && p@ == (BlockPtrView {
                number,
                hash: hash@,
            })),
            hash@.len() != HASH_LENGTH ==> r is None,
    {
        if hash.len() == HASH_LENGTH {
            Some(BlockPtr { number, hash })
        } else {
            None
        }
    }

    /// The block height.
    pub fn number(&self) -> (n: u64)
        ensures
            n == self@.number,
    {
        self.number
    }

    /// The block hash bytes.
    pub fn hash_bytes(&self) -> (h: &Vec<u8>)
        ensures
            h@ == self@.hash,
    {
        &self.hash
    }

    /// Structural equality of two identities.
    pub fn ptr_eq(&self, other: &BlockPtr) -> (r: bool)
        ensures
            r == (self@ == other@),
    {
        let same = self.number == other.number && bytes_eq(&self.hash, &other.hash);
        proof {
            if self@.number == other@.number && self@.hash == other@.hash {
                assert(self@ =~= other@);
            }
        }
        same
    }
}

impl Clone for BlockPtr {
    fn clone(&self) -> (r: Self)
        ensures
            r@ == self@,
    {
        BlockPtr { number: self.number, hash: copy_bytes(&self.hash) }
    }
}

/// Copies an optional identity.
pub fn copy_opt_ptr(p: &Option<BlockPtr>) -> (r: Option<BlockPtr>)
    ensures
        match p {
            Some(q) => r matches Some(w) && w@ == q@,
            None => r is None,
        },
{
    match p {
        Some(q) => Some(q.clone()),
        None => None,
    }
}

} // verus!
